//! The chunks that a client knows, and which of them need a new mesh.

use crate::block::BlockEntry;
use crate::coord::{chunk_offset_spec, chunk_pos_spec, BlockPos, ChunkOffset, ChunkPos, Vec3};
use crate::face::Face;
use crate::keyed_store::KeyedStore;
use crate::mesh::{max_buffer_size, ChunkBufferPool, GPUMesh, Placement};
use crate::palette::BlockPalette;
use crate::world::{ClientBlockComponentUpdate, ClientBlockDamage, ClientChunkBlockComponents};
use vstd::prelude::*;

verus! {

/// A chunk that waits for a new mesh.
#[derive(Copy, Clone)]
pub struct ModifiedChunkEntry {
    pub distance: usize,
    pub chunk: ChunkPos,
}

impl ModifiedChunkEntry {
    /// Whether this chunk is served before the other: the nearer one is, of two at one distance
    /// that with the greater position.
    pub open spec fn precedes(self, other: ModifiedChunkEntry) -> bool {
        if self.distance != other.distance {
            self.distance < other.distance
        } else if self.chunk.x != other.chunk.x {
            self.chunk.x > other.chunk.x
        } else if self.chunk.y != other.chunk.y {
            self.chunk.y > other.chunk.y
        } else {
            self.chunk.z > other.chunk.z
        }
    }

    /// Whether this chunk is served before the other.
    pub fn is_before(&self, other: &ModifiedChunkEntry) -> (r: bool)
        ensures
            r == self.precedes(*other),
    {
        if self.distance != other.distance {
            self.distance < other.distance
        } else if self.chunk.x != other.chunk.x {
            self.chunk.x > other.chunk.x
        } else if self.chunk.y != other.chunk.y {
            self.chunk.y > other.chunk.y
        } else {
            self.chunk.z > other.chunk.z
        }
    }
}

/// The order of the chunks is total: of two different entries one precedes the other, and no entry
/// precedes one that precedes it.
pub proof fn law_entries_ordered(
    a: ModifiedChunkEntry,
    b: ModifiedChunkEntry,
    c: ModifiedChunkEntry,
)
    ensures
        a == b || a.precedes(b) || b.precedes(a),
        !(a.precedes(b) && b.precedes(a)),
        a.precedes(b) && b.precedes(c) ==> a.precedes(c),
        !a.precedes(a),
{
}

/// The chunks that wait for a new mesh.
pub struct ModifiedChunks {
    pub entries: Vec<ModifiedChunkEntry>,
}

/// Whether no entry precedes the one at place `i`.
pub open spec fn is_first(entries: Seq<ModifiedChunkEntry>, i: int) -> bool {
    &&& 0 <= i < entries.len()
    &&& forall|j: int| 0 <= j < entries.len() ==> !(#[trigger] entries[j]).precedes(entries[i])
}

impl ModifiedChunks {
    /// Adds an entry.
    pub fn push(&mut self, entry: ModifiedChunkEntry)
        ensures
            final(self).entries@ == old(self).entries@.push(entry),
    {
        self.entries.push(entry);
    }

    /// Takes out the entry that is served first.
    pub fn pop(&mut self) -> (r: Option<ModifiedChunkEntry>)
        ensures
            match r {
                Some(entry) => exists|i: int|
                    {
                        &&& #[trigger] is_first(old(self).entries@, i)
                        &&& entry == old(self).entries@[i]
                        &&& final(self).entries@ == old(self).entries@.remove(i)
                    },
                None => old(self).entries@.len() == 0 && final(self).entries@ == old(self).entries@,
            },
    {
        if self.entries.len() == 0 {
            return None;
        }
        let mut first: usize = 0;
        let mut i: usize = 1;
        while i < self.entries.len()
            invariant
                self.entries@ == old(self).entries@,
                first < self.entries@.len(),
                1 <= i <= self.entries@.len(),
                forall|j: int|
                    0 <= j < i ==> !(#[trigger] self.entries@[j]).precedes(
                        self.entries@[first as int],
                    ),
            decreases self.entries@.len() - i,
        {
            if self.entries[i].is_before(&self.entries[first]) {
                proof {
                    assert forall|j: int| 0 <= j <= i implies !(
                    #[trigger] self.entries@[j]).precedes(self.entries@[i as int]) by {
                        law_entries_ordered(
                            self.entries@[j],
                            self.entries@[i as int],
                            self.entries@[first as int],
                        );
                    }
                }
                first = i;
            }
            i += 1;
        }
        assert(is_first(old(self).entries@, first as int));
        Some(self.entries.remove(first))
    }
}

/// The number by which a chunk is found.
pub open spec fn chunk_key_spec(position: ChunkPos) -> u128 {
    ((position.x + 32768) + (position.y + 32768) * 65536 + (position.z + 32768) * 4294967296) as u128
}

/// The number by which a chunk is found.
pub fn chunk_key(position: ChunkPos) -> (r: u128)
    ensures
        r == chunk_key_spec(position),
{
    let x = (position.x as i32 + 32768) as u128;
    let y = (position.y as i32 + 32768) as u128;
    let z = (position.z as i32 + 32768) as u128;
    x + y * 65536 + z * 4294967296
}

/// No two chunks have the same number.
pub proof fn law_chunk_key_unique(a: ChunkPos, b: ChunkPos)
    requires
        chunk_key_spec(a) == chunk_key_spec(b),
    ensures
        a == b,
{
    let ka = (a.x + 32768) + (a.y + 32768) * 65536 + (a.z + 32768) * 4294967296;
    let kb = (b.x + 32768) + (b.y + 32768) * 65536 + (b.z + 32768) * 4294967296;
    assert(0 <= ka <= u128::MAX && 0 <= kb <= u128::MAX);
    assert(ka == kb);
    assert(a.z == b.z);
    assert(a.y == b.y);
}

/// The square of the distance between two chunks.
pub open spec fn chunk_distance(a: ChunkPos, b: ChunkPos) -> int {
    (a.x - b.x) * (a.x - b.x) + (a.y - b.y) * (a.y - b.y) + (a.z - b.z) * (a.z - b.z)
}

/// Whether the distance between two chunks fits into the numbers that it is computed with.
pub open spec fn near(a: ChunkPos, b: ChunkPos) -> bool {
    chunk_distance(a, b) <= 32767
}

/// Whether two chunks are near enough for their distance to be computed.
pub fn is_near(a: ChunkPos, b: ChunkPos) -> (r: bool)
    ensures
        r == near(a, b),
{
    let dx: i64 = a.x as i64 - b.x as i64;
    let dy: i64 = a.y as i64 - b.y as i64;
    let dz: i64 = a.z as i64 - b.z as i64;
    assert(0 <= dx * dx <= 4294836225 && 0 <= dy * dy <= 4294836225 && 0 <= dz * dz <= 4294836225)
        by (nonlinear_arith)
        requires
            -65535 <= dx <= 65535,
            -65535 <= dy <= 65535,
            -65535 <= dz <= 65535,
    ;
    dx * dx + dy * dy + dz * dz <= 32767
}

fn distance_between(a: ChunkPos, b: ChunkPos) -> (r: usize)
    requires
        near(a, b),
    ensures
        r == chunk_distance(a, b),
{
    proof {
        let dx = a.x - b.x;
        let dy = a.y - b.y;
        let dz = a.z - b.z;
        lemma_squares(dx, dy, dz);
    }
    a.distance_squared(b) as usize
}

pub proof fn lemma_squares(x: int, y: int, z: int)
    requires
        x * x + y * y + z * z <= 32767,
    ensures
        -182 < x < 182,
        -182 < y < 182,
        -182 < z < 182,
        0 <= x * x <= 32767,
        0 <= y * y <= 32767,
        0 <= z * z <= 32767,
        x * x + y * y <= 32767,
{
    assert(x * x >= 0) by (nonlinear_arith);
    assert(y * y >= 0) by (nonlinear_arith);
    assert(z * z >= 0) by (nonlinear_arith);
    assert(-182 < x < 182) by (nonlinear_arith)
        requires
            x * x <= 32767,
    ;
    assert(-182 < y < 182) by (nonlinear_arith)
        requires
            y * y <= 32767,
    ;
    assert(-182 < z < 182) by (nonlinear_arith)
        requires
            z * z <= 32767,
    ;
}

/// A chunk of the client. `F` is the type of block damage, `B` that of a buffer.
pub struct ClientChunk<F, B> {
    pub position: ChunkPos,
    pub blocks: BlockPalette,
    pub components: ClientChunkBlockComponents<F>,
    pub version: u64,
    pub gpu_mesh: GPUMesh<B>,
    pub gpu_mesh_high_res: GPUMesh<B>,
    pub modified: bool,
    pub scheduled: bool,
}

/// What a chunk holds.
pub struct ChunkModel<F, B> {
    pub position: ChunkPos,
    pub blocks: Seq<BlockEntry>,
    pub components: ClientChunkBlockComponents<F>,
    pub version: u64,
    pub gpu_mesh: GPUMesh<B>,
    pub gpu_mesh_high_res: GPUMesh<B>,
    pub modified: bool,
    pub scheduled: bool,
}

impl<F, B> View for ClientChunk<F, B> {
    type V = ChunkModel<F, B>;

    open spec fn view(&self) -> ChunkModel<F, B> {
        ChunkModel {
            position: self.position,
            blocks: self.blocks@,
            components: self.components,
            version: self.version,
            gpu_mesh: self.gpu_mesh,
            gpu_mesh_high_res: self.gpu_mesh_high_res,
            modified: self.modified,
            scheduled: self.scheduled,
        }
    }
}

/// Whether the damage number `i` of a chunk has become what `change` makes of it for its block.
/// Damage at an offset outside of the chunk stays.
pub open spec fn is_damage_changed<F, B, G: Fn(BlockEntry, F) -> F>(
    before: ChunkModel<F, B>,
    after: ChunkModel<F, B>,
    change: G,
    i: int,
) -> bool {
    let (offset, damage) = before.components.damage.components@[i];
    let changed = after.components.damage.components@[i];
    &&& changed.0 == offset
    &&& if offset.0 < before.blocks.len() {
        call_ensures(change, (before.blocks[offset.0 as int], damage.damage), changed.1.damage)
    } else {
        changed.1 == damage
    }
}

/// Whether a chunk has changed in all its damage, by `change`, and in nothing else.
pub open spec fn are_damages_changed<F, B, G: Fn(BlockEntry, F) -> F>(
    before: ChunkModel<F, B>,
    after: ChunkModel<F, B>,
    change: G,
) -> bool {
    let (old_damage, new_damage) = (before.components.damage, after.components.damage);
    &&& after == (ChunkModel {
        components: ClientChunkBlockComponents { damage: new_damage, ..before.components },
        ..before
    })
    &&& new_damage.tree == old_damage.tree
    &&& new_damage.tick_list == old_damage.tick_list
    &&& new_damage.components@.len() == old_damage.components@.len()
    &&& forall|i: int|
        0 <= i < old_damage.components@.len() ==> #[trigger] is_damage_changed(
            before,
            after,
            change,
            i,
        )
}

impl<F: Copy, B> ClientChunk<F, B> {
    fn change_damage<G: Fn(BlockEntry, F) -> F>(&mut self, change: G)
        requires
            old(self).components.wf(),
            forall|block: BlockEntry, damage: F| #[trigger] call_requires(change, (block, damage)),
        ensures
            final(self).components.wf(),
            are_damages_changed(old(self)@, final(self)@, change),
    {
        let ghost before = self@;
        let ghost start = before.components.damage;
        let mut i: usize = 0;
        while i < self.components.damage.components.len()
            invariant
                i <= self.components.damage.components@.len(),
                start == before.components.damage,
                start.wf(),
                forall|block: BlockEntry, damage: F| #[trigger]
                    call_requires(change, (block, damage)),
                self@ == (ChunkModel {
                    components: ClientChunkBlockComponents {
                        damage: self.components.damage,
                        ..before.components
                    },
                    ..before
                }),
                self.components.damage.tree == start.tree,
                self.components.damage.tick_list == start.tick_list,
                self.components.damage.components@.len() == start.components@.len(),
                forall|j: int|
                    0 <= j < i ==> #[trigger] is_damage_changed(before, self@, change, j),
                forall|j: int|
                    i <= j < start.components@.len() ==> #[trigger]
                        self.components.damage.components@[j] == start.components@[j],
            decreases self.components.damage.components@.len() - i,
        {
            let (offset, damage): (ChunkOffset, F) = {
                let entry = &self.components.damage.components[i];
                (entry.0, entry.1.damage)
            };
            let ghost last = self@;
            match self.blocks.get(offset.index()) {
                Some(block) => {
                    let changed = change(block, damage);
                    self.components.damage.components.set(
                        i,
                        (offset, ClientBlockDamage { damage: changed }),
                    );
                },
                None => {},
            }
            proof {
                assert forall|j: int| 0 <= j < i + 1 implies #[trigger] is_damage_changed(
                    before,
                    self@,
                    change,
                    j,
                ) by {
                    if j < i {
                        assert(is_damage_changed(before, last, change, j));
                    }
                }
            }
            i += 1;
        }
        proof {
            let end = self.components.damage;
            assert forall|j: int| 0 <= j < end.components@.len() implies (
            #[trigger] end.components@[j]).0 == start.components@[j].0 by {
                assert(is_damage_changed(before, self@, change, j));
            }
        }
    }
}

/// The blocks of a chunk.
pub const CHUNK_BLOCKS: usize = 32768;

/// The chunks and the queue.
pub struct WorldModel<F, B> {
    pub chunks: Map<u128, ChunkModel<F, B>>,
    pub queue: Seq<ModifiedChunkEntry>,
}

impl<F, B> WorldModel<F, B> {
    /// Whether a chunk is known.
    pub open spec fn has(self, position: ChunkPos) -> bool {
        self.chunks.contains_key(chunk_key_spec(position))
    }

    /// A known chunk.
    pub open spec fn chunk(self, position: ChunkPos) -> ChunkModel<F, B> {
        self.chunks[chunk_key_spec(position)]
    }

    /// The block at a position, if its chunk is known.
    pub open spec fn block_at(self, position: BlockPos) -> Option<BlockEntry> {
        if self.has(chunk_pos_spec(position)) {
            Some(self.chunk(chunk_pos_spec(position)).blocks[chunk_offset_spec(position).0 as int])
        } else {
            None
        }
    }

    /// The same with another chunk in place.
    pub open spec fn with(self, position: ChunkPos, chunk: ChunkModel<F, B>) -> WorldModel<F, B> {
        WorldModel { chunks: self.chunks.insert(chunk_key_spec(position), chunk), ..self }
    }

    /// Whether a chunk waits for a new mesh.
    pub open spec fn is_queued(self, position: ChunkPos) -> bool {
        exists|i: int| 0 <= i < self.queue.len() && (#[trigger] self.queue[i]).chunk == position
    }

    /// Whether every chunk stands under its position, has all its blocks and sound components, and
    /// every modified chunk waits for a new mesh.
    pub open spec fn wf(self) -> bool {
        forall|key: u128| #[trigger]
            self.chunks.contains_key(key) ==> {
                &&& key == chunk_key_spec(self.chunks[key].position)
                &&& self.chunks[key].blocks.len() == CHUNK_BLOCKS
                &&& self.chunks[key].components.wf()
                &&& self.chunks[key].modified ==> self.is_queued(self.chunks[key].position)
            }
    }

    /// Whether a chunk can be marked.
    pub open spec fn can_mark(self, player: ChunkPos, position: ChunkPos) -> bool {
        self.has(position) && !self.chunk(position).modified ==> near(player, position)
    }

    /// The chunk at `position`, if there is one, has a new version and waits for a new mesh, at the
    /// distance from the player that it has now if it was not waiting before.
    pub open spec fn marked(self, player: ChunkPos, position: ChunkPos) -> WorldModel<F, B> {
        if !self.has(position) {
            self
        } else {
            let chunk = self.chunk(position);
            let entry = ModifiedChunkEntry {
                distance: chunk_distance(player, position) as usize,
                chunk: position,
            };
            WorldModel {
                queue: if chunk.modified {
                    self.queue
                } else {
                    self.queue.push(entry)
                },
                ..self.with(
                    position,
                    ChunkModel {
                        version: ((chunk.version + 1) % 0x1_0000_0000_0000_0000) as u64,
                        modified: true,
                        ..chunk
                    },
                )
            }
        }
    }

    /// Several chunks are marked, one after the other.
    pub open spec fn all_marked(self, player: ChunkPos, positions: Seq<ChunkPos>) -> WorldModel<F, B>
        decreases positions.len(),
    {
        if positions.len() == 0 {
            self
        } else {
            self.all_marked(player, positions.drop_last()).marked(player, positions.last())
        }
    }

    /// Whether every chunk of a list that has to be put into the queue can be.
    pub open spec fn can_mark_all(self, player: ChunkPos, positions: Seq<ChunkPos>) -> bool {
        forall|i: int| 0 <= i < positions.len() ==> self.can_mark(player, #[trigger] positions[i])
    }
}

/// Marking chunks keeps the chunks in order, and what can be marked can still be.
proof fn lemma_marked<F, B>(
    world: WorldModel<F, B>,
    player: ChunkPos,
    position: ChunkPos,
    other: ChunkPos,
)
    requires
        world.wf(),
    ensures
        world.marked(player, position).wf(),
        world.can_mark(player, other) ==> world.marked(player, position).can_mark(player, other),
        world.marked(player, position).chunks.dom() == world.chunks.dom(),
{
    let after = world.marked(player, position);
    if world.has(position) {
        assert(after.is_queued(position)) by {
            if world.chunk(position).modified {
                assert(world.is_queued(world.chunk(position).position));
                law_chunk_key_unique(world.chunk(position).position, position);
                let i = choose|i: int|
                    0 <= i < world.queue.len() && (#[trigger] world.queue[i]).chunk == position;
                assert(after.queue[i].chunk == position);
            } else {
                assert(after.queue[after.queue.len() - 1].chunk == position);
            }
        }
        assert forall|key: u128| #[trigger] after.chunks.contains_key(key) implies {
            &&& key == chunk_key_spec(after.chunks[key].position)
            &&& after.chunks[key].blocks.len() == CHUNK_BLOCKS
            &&& after.chunks[key].components.wf()
            &&& after.chunks[key].modified ==> after.is_queued(after.chunks[key].position)
        } by {
            assert(world.chunks.contains_key(key));
            if key == chunk_key_spec(position) {
                law_chunk_key_unique(world.chunk(position).position, position);
            } else if world.chunks[key].modified {
                let p = world.chunks[key].position;
                let i = choose|i: int|
                    0 <= i < world.queue.len() && (#[trigger] world.queue[i]).chunk == p;
                assert(after.queue[i].chunk == p);
            }
        }
        assert(after.chunks.dom() =~= world.chunks.dom());
    }
}

proof fn lemma_all_marked<F, B>(
    world: WorldModel<F, B>,
    player: ChunkPos,
    positions: Seq<ChunkPos>,
    other: ChunkPos,
)
    requires
        world.wf(),
    ensures
        world.all_marked(player, positions).wf(),
        world.can_mark(player, other) ==> world.all_marked(player, positions).can_mark(player, other),
        world.all_marked(player, positions).chunks.dom() == world.chunks.dom(),
    decreases positions.len(),
{
    if positions.len() > 0 {
        lemma_all_marked(world, player, positions.drop_last(), other);
        lemma_marked(
            world.all_marked(player, positions.drop_last()),
            player,
            positions.last(),
            other,
        );
    }
}

/// Whether a chunk has neighbors on every side.
pub open spec fn is_inner(position: ChunkPos) -> bool {
    &&& -32768 < position.x < 32767
    &&& -32768 < position.y < 32767
    &&& -32768 < position.z < 32767
}

/// Whether a chunk has neighbors on all sides.
pub fn has_neighbors(position: ChunkPos) -> (r: bool)
    ensures
        r == is_inner(position),
{
    -32768 < position.x && position.x < 32767 && -32768 < position.y && position.y < 32767 && -32768
        < position.z && position.z < 32767
}

/// The neighbor of a chunk on one side.
pub open spec fn neighbor_chunk(position: ChunkPos, face: Face) -> ChunkPos {
    Vec3 {
        x: (position.x + face.offset().x) as i16,
        y: (position.y + face.offset().y) as i16,
        z: (position.z + face.offset().z) as i16,
    }
}

pub(crate) fn neighbor_of(position: ChunkPos, face: Face) -> (r: ChunkPos)
    requires
        is_inner(position),
    ensures
        r == neighbor_chunk(position, face),
{
    let offset = face.get_chunk_offset();
    position + offset
}

/// The first `n` of the neighbors of a chunk whose side passes.
pub open spec fn neighbors(position: ChunkPos, passes: spec_fn(Face) -> bool, n: int) -> Seq<ChunkPos>
    decreases n,
{
    if n <= 0 {
        Seq::empty()
    } else {
        let face = Face::all_spec()[n - 1];
        let before = neighbors(position, passes, n - 1);
        if passes(face) {
            before.push(neighbor_chunk(position, face))
        } else {
            before
        }
    }
}

/// A chunk and all its neighbors.
pub open spec fn chunk_and_neighbors(position: ChunkPos) -> Seq<ChunkPos> {
    seq![position] + neighbors(position, |face: Face| true, 6)
}

/// A neighbor of a chunk is another chunk.
proof fn lemma_neighbor_differs(position: ChunkPos, i: int)
    requires
        is_inner(position),
        1 <= i < chunk_and_neighbors(position).len(),
    ensures
        chunk_and_neighbors(position)[i] != position,
{
    lemma_neighbors_differ(position, |face: Face| true, 6);
    assert(chunk_and_neighbors(position)[i] == neighbors(position, |face: Face| true, 6)[i - 1]);
}

proof fn lemma_neighbors_differ(position: ChunkPos, passes: spec_fn(Face) -> bool, n: int)
    requires
        is_inner(position),
        0 <= n <= 6,
    ensures
        forall|i: int|
            0 <= i < neighbors(position, passes, n).len() ==> #[trigger] neighbors(
                position,
                passes,
                n,
            )[i] != position,
    decreases n,
{
    if n > 0 {
        lemma_neighbors_differ(position, passes, n - 1);
        let face = Face::all_spec()[n - 1];
        assert(neighbor_chunk(position, face) != position) by {
            match face {
                Face::Front => {},
                Face::Back => {},
                Face::Left => {},
                Face::Right => {},
                Face::Up => {},
                Face::Down => {},
            }
        }
        let before = neighbors(position, passes, n - 1);
        let after = neighbors(position, passes, n);
        assert forall|i: int| 0 <= i < after.len() implies #[trigger] after[i] != position by {
            if i < before.len() {
                assert(after[i] == before[i]);
            } else {
                assert(after[i] == neighbor_chunk(position, face));
            }
        }
    }
}

/// On which border of a chunk a coordinate lies: -1 at the lower, 1 at the upper, 0 between them.
pub open spec fn border(coordinate: int) -> int {
    if coordinate == 0 {
        -1
    } else if coordinate == 31 {
        1
    } else {
        0
    }
}

fn border_of(coordinate: i32) -> (r: i32)
    ensures
        r == border(coordinate as int),
{
    if coordinate == 0 {
        return -1;
    }
    if coordinate == 31 {
        return 1;
    }
    0
}

/// Whether a change of the block at `offset` marks the neighbor on that side: some coordinate lies
/// on the same border as the side, or between the borders if the side is on another axis.
pub open spec fn is_affected(offset: BlockPos, face: Face) -> bool {
    ||| border(offset.x as int) == face.offset().x
    ||| border(offset.y as int) == face.offset().y
    ||| border(offset.z as int) == face.offset().z
}

/// The chunks that a change of the block at `position` marks.
pub open spec fn affected_chunks(position: BlockPos) -> Seq<ChunkPos> {
    let chunk = chunk_pos_spec(position);
    let offset = chunk_offset_spec(position).xyz_spec();
    seq![chunk] + neighbors(chunk, |face: Face| is_affected(offset, face), 6)
}

/// The chunk beyond a border that a block lies on is marked when the block changes.
pub proof fn law_bordering_chunk_affected(position: BlockPos, face: Face)
    requires
        is_inner(chunk_pos_spec(position)),
        ({
            let offset = chunk_offset_spec(position).xyz_spec();
            ||| face.offset().x != 0 && border(offset.x as int) == face.offset().x
            ||| face.offset().y != 0 && border(offset.y as int) == face.offset().y
            ||| face.offset().z != 0 && border(offset.z as int) == face.offset().z
        }),
    ensures
        affected_chunks(position).contains(neighbor_chunk(chunk_pos_spec(position), face)),
{
    let chunk = chunk_pos_spec(position);
    let offset = chunk_offset_spec(position).xyz_spec();
    let passes = |face: Face| is_affected(offset, face);
    assert(passes(face));
    crate::face::law_all_faces(face);
    let i = choose|i: int| 0 <= i < 6 && Face::all_spec()[i] == face;
    lemma_neighbors_hold(chunk, passes, 6, i);
    let list = neighbors(chunk, passes, 6);
    let j = choose|j: int| 0 <= j < list.len() && list[j] == neighbor_chunk(chunk, face);
    assert(affected_chunks(position)[j + 1] == neighbor_chunk(chunk, face));
}

proof fn lemma_neighbors_hold(position: ChunkPos, passes: spec_fn(Face) -> bool, n: int, i: int)
    requires
        0 <= i < n <= 6,
        passes(Face::all_spec()[i]),
    ensures
        neighbors(position, passes, n).contains(neighbor_chunk(position, Face::all_spec()[i])),
    decreases n,
{
    let list = neighbors(position, passes, n);
    if i == n - 1 {
        assert(list[list.len() - 1] == neighbor_chunk(position, Face::all_spec()[i]));
    } else {
        lemma_neighbors_hold(position, passes, n - 1, i);
        let before = neighbors(position, passes, n - 1);
        let j = choose|j: int|
            0 <= j < before.len() && before[j] == neighbor_chunk(position, Face::all_spec()[i]);
        assert(list[j] == before[j]);
    }
}

/// The chunks of a client.
pub struct ClientWorld<F, B> {
    pub chunks: KeyedStore<ClientChunk<F, B>>,
    pub modified_chunks: ModifiedChunks,
    pub chunk_mesh_queue_size: usize,
    pub chunk_buffer_pool: ChunkBufferPool<B>,
}

impl<F, B> View for ClientWorld<F, B> {
    type V = WorldModel<F, B>;

    open spec fn view(&self) -> WorldModel<F, B> {
        WorldModel {
            chunks: self.chunks@.map_values(|chunk: ClientChunk<F, B>| chunk@),
            queue: self.modified_chunks.entries@,
        }
    }
}

/// Whether the pool can take back the buffer of a mesh.
pub open spec fn can_pool<B>(mesh: GPUMesh<B>) -> bool {
    mesh.buffer matches Some(buffer) ==> buffer.size <= max_buffer_size()
}

impl<F, B> ClientWorld<F, B> {
    /// Whether the parts of the world fit together.
    pub open spec fn wf(self) -> bool {
        &&& self.chunks.wf()
        &&& self.chunk_buffer_pool.wf()
        &&& self@.wf()
        &&& forall|key: u128| #[trigger]
            self@.chunks.contains_key(key) ==> can_pool(self@.chunks[key].gpu_mesh) && can_pool(
                self@.chunks[key].gpu_mesh_high_res,
            )
    }

    /// Whether nothing but the chunks and their queue differs.
    pub open spec fn same_meshes(self, other: ClientWorld<F, B>) -> bool {
        &&& self.chunk_mesh_queue_size == other.chunk_mesh_queue_size
        &&& self.chunk_buffer_pool == other.chunk_buffer_pool
    }

    /// No chunks.
    pub fn new() -> (r: ClientWorld<F, B>)
        ensures
            r.wf(),
            r@.chunks == Map::<u128, ChunkModel<F, B>>::empty(),
            r@.queue.len() == 0,
            r.chunk_mesh_queue_size == 0,
            r.chunk_buffer_pool.buffers@.len() == 0,
    {
        let r = ClientWorld {
            chunks: KeyedStore::with_capacity(1000),
            modified_chunks: ModifiedChunks { entries: Vec::new() },
            chunk_mesh_queue_size: 0,
            chunk_buffer_pool: ChunkBufferPool::default(),
        };
        assert(r@.chunks =~= Map::<u128, ChunkModel<F, B>>::empty());
        r
    }

    /// Gives a chunk a new version and has it wait for a new mesh.
    pub fn mark_modified(&mut self, player: ChunkPos, position: ChunkPos)
        requires
            old(self).wf(),
            old(self)@.can_mark(player, position),
        ensures
            final(self).wf(),
            final(self)@ == old(self)@.marked(player, position),
            final(self).same_meshes(*old(self)),
    {
        let ghost before = *self;
        let key = chunk_key(position);
        proof {
            lemma_marked(before@, player, position, position);
        }
        match self.chunks.get_mut(key) {
            Some(chunk) => {
                assert(before@.has(position));
                chunk.version = chunk.version.wrapping_add(1);
                if !chunk.modified {
                    chunk.modified = true;
                    self.modified_chunks.push(
                        ModifiedChunkEntry {
                            distance: distance_between(player, position),
                            chunk: position,
                        },
                    );
                }
                proof {
                    assert(self@.chunks =~= before@.marked(player, position).chunks);
                    assert(self@.queue =~= before@.marked(player, position).queue);
                }
            },
            None => {
                assert(self@.chunks =~= before@.chunks);
            },
        }
        proof {
            assert forall|k: u128| #[trigger] self@.chunks.contains_key(k) implies can_pool(
                self@.chunks[k].gpu_mesh,
            ) && can_pool(self@.chunks[k].gpu_mesh_high_res) by {
                assert(before@.chunks.contains_key(k));
            }
        }
    }

    /// Marks the neighbors of a chunk on the first six sides that pass.
    fn mark_list(&mut self, player: ChunkPos, positions: &Vec<ChunkPos>)
        requires
            old(self).wf(),
            old(self)@.can_mark_all(player, positions@),
        ensures
            final(self).wf(),
            final(self)@ == old(self)@.all_marked(player, positions@),
            final(self).same_meshes(*old(self)),
    {
        let mut i: usize = 0;
        assert(positions@.take(0) =~= Seq::<ChunkPos>::empty());
        while i < positions.len()
            invariant
                i <= positions@.len(),
                self.wf(),
                old(self).wf(),
                old(self)@.can_mark_all(player, positions@),
                self@ == old(self)@.all_marked(player, positions@.take(i as int)),
                self.same_meshes(*old(self)),
            decreases positions@.len() - i,
        {
            let position = positions[i];
            proof {
                assert(old(self)@.can_mark(player, positions@[i as int]));
                lemma_all_marked(old(self)@, player, positions@.take(i as int), position);
                assert(positions@.take(i + 1).drop_last() =~= positions@.take(i as int));
            }
            self.mark_modified(player, position);
            i += 1;
        }
        assert(positions@.take(i as int) =~= positions@);
    }

    /// A chunk and all its neighbors.
    fn with_neighbors(position: ChunkPos) -> (r: Vec<ChunkPos>)
        requires
            is_inner(position),
        ensures
            r@ == chunk_and_neighbors(position),
    {
        let mut r: Vec<ChunkPos> = Vec::new();
        r.push(position);
        let faces = Face::all();
        let ghost passes = |face: Face| true;
        let mut i: usize = 0;
        assert(r@ =~= seq![position] + neighbors(position, passes, 0));
        while i < 6
            invariant
                i <= 6,
                is_inner(position),
                faces@ == Face::all_spec(),
                passes == |face: Face| true,
                r@ == seq![position] + neighbors(position, passes, i as int),
            decreases 6 - i,
        {
            r.push(neighbor_of(position, faces[i]));
            i += 1;
            assert(r@ =~= seq![position] + neighbors(position, passes, i as int));
        }
        r
    }

    /// Whether a chunk that is marked for a new mesh is near enough to the player.
    fn is_markable(&self, player: ChunkPos, position: ChunkPos) -> (r: bool)
        requires
            self.wf(),
        ensures
            r == self@.can_mark(player, position),
    {
        match self.chunks.get(chunk_key(position)) {
            Some(chunk) => {
                assert(self@.chunks.contains_key(chunk_key_spec(position)));
                chunk.modified || is_near(player, position)
            },
            None => true,
        }
    }

    /// Whether all chunks of a list can be marked, but for one that is taken for a fresh one.
    fn are_markable(&self, player: ChunkPos, positions: &Vec<ChunkPos>, from: usize) -> (r: bool)
        requires
            self.wf(),
        ensures
            r == forall|i: int|
                from <= i < positions@.len() ==> self@.can_mark(player, #[trigger] positions@[i]),
    {
        let mut i: usize = from;
        while i < positions.len()
            invariant
                from <= i,
                self.wf(),
                forall|j: int|
                    from <= j < i ==> self@.can_mark(player, #[trigger] positions@[j]),
            decreases positions@.len() - i,
        {
            if !self.is_markable(player, positions[i]) {
                assert(!self@.can_mark(player, positions@[i as int]));
                return false;
            }
            i += 1;
        }
        true
    }

    /// Whether a chunk can be taken over.
    pub fn can_load(
        &self,
        player: ChunkPos,
        position: ChunkPos,
        blocks: &BlockPalette,
        components: &ClientChunkBlockComponents<F>,
    ) -> (r: bool)
        requires
            self.wf(),
        ensures
            r == {
                &&& blocks@.len() == CHUNK_BLOCKS
                &&& is_inner(position)
                &&& Self::loaded(self@, position, blocks@, *components).can_mark_all(
                    player,
                    chunk_and_neighbors(position),
                )
            },
    {
        if !has_neighbors(position) || blocks.get(CHUNK_BLOCKS - 1).is_none() || blocks.get(
            CHUNK_BLOCKS,
        ).is_some() {
            return false;
        }
        let positions = Self::with_neighbors(position);
        let r = is_near(player, position) && self.are_markable(player, &positions, 1);
        proof {
            let loaded = Self::loaded(self@, position, blocks@, *components);
            assert(positions@[0] == position);
            assert(loaded.can_mark(player, position) == near(player, position));
            assert forall|i: int| 1 <= i < positions@.len() implies loaded.can_mark(
                player,
                #[trigger] positions@[i],
            ) == self@.can_mark(player, positions@[i]) by {
                lemma_neighbor_differs(position, i);
                if chunk_key_spec(positions@[i]) == chunk_key_spec(position) {
                    law_chunk_key_unique(positions@[i], position);
                }
            }
            if loaded.can_mark_all(player, positions@) {
                assert(loaded.can_mark(player, positions@[0]));
                assert forall|i: int| 1 <= i < positions@.len() implies self@.can_mark(
                    player,
                    #[trigger] positions@[i],
                ) by {
                    assert(loaded.can_mark(player, positions@[i]));
                }
            }
            if r {
                assert forall|i: int| 0 <= i < positions@.len() implies loaded.can_mark(
                    player,
                    #[trigger] positions@[i],
                ) by {
                    if i > 0 {
                        assert(self@.can_mark(player, positions@[i]));
                    }
                }
            }
        }
        r
    }

    /// Takes over a chunk, which needs a mesh, as do its neighbors.
    pub fn load_chunk(
        &mut self,
        player: ChunkPos,
        position: ChunkPos,
        blocks: BlockPalette,
        components: ClientChunkBlockComponents<F>,
    )
        requires
            old(self).wf(),
            blocks@.len() == CHUNK_BLOCKS,
            is_inner(position),
            components.wf(),
            Self::loaded(old(self)@, position, blocks@, components).can_mark_all(
                player,
                chunk_and_neighbors(position),
            ),
        ensures
            final(self).wf(),
            final(self)@ == Self::loaded(old(self)@, position, blocks@, components).all_marked(
                player,
                chunk_and_neighbors(position),
            ),
            final(self).same_meshes(*old(self)),
    {
        let ghost before = *self;
        self.chunks.insert(
            chunk_key(position),
            ClientChunk {
                position,
                blocks,
                components,
                version: 0,
                gpu_mesh: GPUMesh::empty(),
                gpu_mesh_high_res: GPUMesh::empty(),
                modified: false,
                scheduled: false,
            },
        );
        proof {
            let loaded = Self::loaded(before@, position, blocks@, components);
            assert(self@.chunks =~= loaded.chunks);
            assert(self@ == loaded);
            assert forall|key: u128| #[trigger] loaded.chunks.contains_key(key) implies {
                &&& key == chunk_key_spec(loaded.chunks[key].position)
                &&& loaded.chunks[key].blocks.len() == CHUNK_BLOCKS
                &&& loaded.chunks[key].components.wf()
                &&& loaded.chunks[key].modified ==> loaded.is_queued(loaded.chunks[key].position)
                &&& can_pool(loaded.chunks[key].gpu_mesh)
                &&& can_pool(loaded.chunks[key].gpu_mesh_high_res)
            } by {
                if key != chunk_key_spec(position) {
                    assert(before@.chunks.contains_key(key));
                    if before@.chunks[key].modified {
                        assert(before@.is_queued(before@.chunks[key].position));
                        assert(loaded.queue == before@.queue);
                    }
                }
            }
        }
        let positions = Self::with_neighbors(position);
        self.mark_list(player, &positions);
    }

    /// The world with a fresh chunk in place.
    pub open spec fn loaded(
        world: WorldModel<F, B>,
        position: ChunkPos,
        blocks: Seq<BlockEntry>,
        components: ClientChunkBlockComponents<F>,
    ) -> WorldModel<F, B> {
        world.with(
            position,
            ChunkModel {
                position,
                blocks,
                components,
                version: 0,
                gpu_mesh: GPUMesh { buffer: None, render_data: None },
                gpu_mesh_high_res: GPUMesh { buffer: None, render_data: None },
                modified: false,
                scheduled: false,
            },
        )
    }

    /// Whether a pool has taken back the buffers of a chunk that is forgotten, first that of the
    /// coarse mesh.
    pub open spec fn is_pool_after_unload(
        world: WorldModel<F, B>,
        position: ChunkPos,
        before: ChunkBufferPool<B>,
        after: ChunkBufferPool<B>,
    ) -> bool {
        if world.has(position) {
            exists|between: ChunkBufferPool<B>| #[trigger]
                ChunkBufferPool::reclaimed(before, between, world.chunk(position).gpu_mesh)
                    && ChunkBufferPool::reclaimed(
                    between,
                    after,
                    world.chunk(position).gpu_mesh_high_res,
                )
        } else {
            after == before
        }
    }

    /// Forgets a chunk; its buffers go back to the pool.
    pub fn unload_chunk(&mut self, position: ChunkPos)
        requires
            old(self).wf(),
        ensures
            final(self).wf(),
            final(self)@.chunks == old(self)@.chunks.remove(chunk_key_spec(position)),
            final(self)@.queue == old(self)@.queue,
            final(self).chunk_mesh_queue_size == old(self).chunk_mesh_queue_size,
            Self::is_pool_after_unload(
                old(self)@,
                position,
                old(self).chunk_buffer_pool,
                final(self).chunk_buffer_pool,
            ),
    {
        let ghost before = *self;
        let removed = self.chunks.remove(chunk_key(position));
        proof {
            assert(self@.chunks =~= before@.chunks.remove(chunk_key_spec(position)));
            assert forall|key: u128| #[trigger] self@.chunks.contains_key(key) implies {
                &&& key == chunk_key_spec(self@.chunks[key].position)
                &&& self@.chunks[key].blocks.len() == CHUNK_BLOCKS
                &&& self@.chunks[key].components.wf()
                &&& self@.chunks[key].modified ==> self@.is_queued(self@.chunks[key].position)
                &&& can_pool(self@.chunks[key].gpu_mesh)
                &&& can_pool(self@.chunks[key].gpu_mesh_high_res)
            } by {
                assert(before@.chunks.contains_key(key));
                if before@.chunks[key].modified {
                    assert(before@.is_queued(before@.chunks[key].position));
                    assert(self@.queue == before@.queue);
                }
            }
        }
        match removed {
            Some(chunk) => {
                assert(before@.has(position) && before@.chunk(position) == chunk@);
                let pool = &mut self.chunk_buffer_pool;
                pool.reclaim(chunk.gpu_mesh);
                let ghost between = *pool;
                pool.reclaim(chunk.gpu_mesh_high_res);
                assert(ChunkBufferPool::reclaimed(
                    before.chunk_buffer_pool,
                    between,
                    chunk.gpu_mesh,
                ));
            },
            None => {},
        }
    }

    /// The block at a position, `None` if its chunk is not known.
    pub fn get_block(&self, position: BlockPos) -> (r: Option<BlockEntry>)
        requires
            self.wf(),
        ensures
            r == self@.block_at(position),
    {
        let (chunk, offset) = position.to_chunk_pos_offset();
        match self.chunks.get(chunk_key(chunk)) {
            Some(chunk) => {
                assert(self@.chunks.contains_key(chunk_key_spec(chunk_pos_spec(position))));
                proof {
                    lemma_offset_in_chunk(position);
                }
                chunk.blocks.get(offset.index())
            },
            None => None,
        }
    }

    /// The sides of a chunk that a change at `offset` touches, after the chunk itself.
    fn list_affected(chunk: ChunkPos, offset: BlockPos) -> (r: Vec<ChunkPos>)
        requires
            is_inner(chunk),
        ensures
            r@ == seq![chunk] + neighbors(chunk, |face: Face| is_affected(offset, face), 6),
    {
        let mut r: Vec<ChunkPos> = Vec::new();
        r.push(chunk);
        let faces = Face::all();
        let ghost passes = |face: Face| is_affected(offset, face);
        let mut i: usize = 0;
        assert(r@ =~= seq![chunk] + neighbors(chunk, passes, 0));
        while i < 6
            invariant
                i <= 6,
                is_inner(chunk),
                faces@ == Face::all_spec(),
                passes == |face: Face| is_affected(offset, face),
                r@ == seq![chunk] + neighbors(chunk, passes, i as int),
            decreases 6 - i,
        {
            let face = faces[i];
            let face_offset = face.get_block_offset();
            if border_of(offset.x) == face_offset.x || border_of(offset.y) == face_offset.y
                || border_of(offset.z) == face_offset.z {
                r.push(neighbor_of(chunk, face));
            }
            i += 1;
            assert(r@ =~= seq![chunk] + neighbors(chunk, passes, i as int));
        }
        r
    }

    /// The world with another block at a position.
    pub open spec fn block_set(
        world: WorldModel<F, B>,
        position: BlockPos,
        block: BlockEntry,
    ) -> WorldModel<F, B> {
        let chunk = world.chunk(chunk_pos_spec(position));
        world.with(
            chunk_pos_spec(position),
            ChunkModel {
                blocks: chunk.blocks.update(chunk_offset_spec(position).0 as int, block),
                ..chunk
            },
        )
    }

    /// Whether a block can be replaced.
    pub fn can_set_block(&self, player: ChunkPos, position: BlockPos) -> (r: bool)
        requires
            self.wf(),
        ensures
            r == {
                &&& self@.has(chunk_pos_spec(position))
                &&& is_inner(chunk_pos_spec(position))
                &&& self@.can_mark_all(player, affected_chunks(position))
            },
    {
        let (chunk, offset) = position.to_chunk_pos_offset();
        if !self.chunks.contains_key(chunk_key(chunk)) || !has_neighbors(chunk) {
            return false;
        }
        let positions = Self::list_affected(chunk, offset.xyz());
        self.are_markable(player, &positions, 0)
    }

    /// Whether a component of a block can be replaced.
    pub fn can_update_components(
        &self,
        player: ChunkPos,
        position: ChunkPos,
        offset: ChunkOffset,
        update: &ClientBlockComponentUpdate<F>,
    ) -> (r: bool)
        requires
            self.wf(),
        ensures
            r == {
                &&& *update is ClientBlockPlants ==> self@.can_mark(player, position)
                &&& self@.has(position) ==> update.can_apply(
                    offset,
                    self@.chunk(position).components,
                )
            },
    {
        let is_marked = match update {
            ClientBlockComponentUpdate::ClientBlockPlants(_) => self.is_markable(player, position),
            _ => true,
        };
        match self.chunks.get(chunk_key(position)) {
            Some(chunk) => {
                assert(self@.chunks.contains_key(chunk_key_spec(position)));
                is_marked && update.fits(offset, &chunk.components)
            },
            None => is_marked,
        }
    }

    /// Replaces a block of a known chunk, which then needs a new mesh, as do the neighbors that the
    /// change affects.
    pub fn set_block(&mut self, player: ChunkPos, position: BlockPos, block: BlockEntry)
        requires
            old(self).wf(),
            old(self)@.has(chunk_pos_spec(position)),
            is_inner(chunk_pos_spec(position)),
            old(self)@.can_mark_all(player, affected_chunks(position)),
        ensures
            final(self).wf(),
            final(self)@ == Self::block_set(old(self)@, position, block).all_marked(
                player,
                affected_chunks(position),
            ),
            final(self).same_meshes(*old(self)),
    {
        let ghost before = *self;
        let (chunk_position, offset) = position.to_chunk_pos_offset();
        let key = chunk_key(chunk_position);
        proof {
            lemma_offset_in_chunk(position);
            assert(before@.chunks.contains_key(key));
        }
        match self.chunks.get_mut(key) {
            Some(chunk) => {
                chunk.blocks.set(offset.index(), &block);
            },
            None => {},
        }
        proof {
            let set = Self::block_set(before@, position, block);
            assert(self@.chunks =~= set.chunks);
            assert(self@ == set);
            assert forall|k: u128| #[trigger] set.chunks.contains_key(k) implies {
                &&& k == chunk_key_spec(set.chunks[k].position)
                &&& set.chunks[k].blocks.len() == CHUNK_BLOCKS
                &&& set.chunks[k].components.wf()
                &&& set.chunks[k].modified ==> set.is_queued(set.chunks[k].position)
                &&& can_pool(set.chunks[k].gpu_mesh)
                &&& can_pool(set.chunks[k].gpu_mesh_high_res)
            } by {
                assert(before@.chunks.contains_key(k));
                if before@.chunks[k].modified {
                    assert(before@.is_queued(before@.chunks[k].position));
                    assert(set.queue == before@.queue);
                }
            }
            assert forall|i: int| 0 <= i < affected_chunks(position).len() implies set.can_mark(
                player,
                #[trigger] affected_chunks(position)[i],
            ) by {
                assert(before@.can_mark(player, affected_chunks(position)[i]));
            }
        }
        let positions = Self::list_affected(chunk_position, offset.xyz());
        self.mark_list(player, &positions);
    }

    /// Whether `after` is `before` with a component of a block replaced, if its chunk is known.
    pub open spec fn is_component_updated(
        before: WorldModel<F, B>,
        after: WorldModel<F, B>,
        player: ChunkPos,
        position: ChunkPos,
        offset: ChunkOffset,
        update: ClientBlockComponentUpdate<F>,
    ) -> bool {
        let between = if update is ClientBlockPlants {
            before.marked(player, position)
        } else {
            before
        };
        if before.has(position) {
            exists|components: ClientChunkBlockComponents<F>| #[trigger]
                update.is_applied(offset, before.chunk(position).components, components) && after
                    == between.with(
                    position,
                    ChunkModel { components, ..between.chunk(position) },
                )
        } else {
            after == between
        }
    }

    /// Replaces a component of a block, if its chunk is known. Plants are part of the mesh of the
    /// chunk, which then needs a new one.
    pub fn update_components(
        &mut self,
        player: ChunkPos,
        position: ChunkPos,
        offset: ChunkOffset,
        update: ClientBlockComponentUpdate<F>,
    )
        requires
            old(self).wf(),
            update is ClientBlockPlants ==> old(self)@.can_mark(player, position),
            old(self)@.has(position) ==> update.can_apply(
                offset,
                old(self)@.chunk(position).components,
            ),
        ensures
            final(self).wf(),
            final(self).same_meshes(*old(self)),
            Self::is_component_updated(
                old(self)@,
                final(self)@,
                player,
                position,
                offset,
                update,
            ),
    {
        let ghost start = *self;
        match &update {
            ClientBlockComponentUpdate::ClientBlockPlants(_) => {
                self.mark_modified(player, position);
            },
            _ => {},
        }
        let ghost before = *self;
        let key = chunk_key(position);
        proof {
            lemma_marked(start@, player, position, position);
            assert(before@.chunks.dom() == start@.chunks.dom());
            assert(before@.chunks.contains_key(key) == start@.chunks.contains_key(key));
        }
        match self.chunks.get_mut(key) {
            Some(chunk) => {
                proof {
                    assert(before@.chunks.contains_key(key));
                    assert(start@.has(position));
                    assert(chunk.components == start@.chunk(position).components);
                }
                update.update(offset, &mut chunk.components);
                let ghost components = chunk.components;
                proof {
                    let after = before@.with(
                        position,
                        ChunkModel { components, ..before@.chunk(position) },
                    );
                    assert(self@.chunks =~= after.chunks);
                    assert(self@ == after);
                    assert(update.is_applied(
                        offset,
                        start@.chunk(position).components,
                        components,
                    ));
                }
            },
            None => {
                assert(!before@.chunks.contains_key(key));
                assert(self@.chunks =~= before@.chunks);
                assert(self@ == before@);
            },
        }
        proof {
            assert forall|k: u128| #[trigger] self@.chunks.contains_key(k) implies {
                &&& k == chunk_key_spec(self@.chunks[k].position)
                &&& self@.chunks[k].blocks.len() == CHUNK_BLOCKS
                &&& self@.chunks[k].components.wf()
                &&& self@.chunks[k].modified ==> self@.is_queued(self@.chunks[k].position)
                &&& can_pool(self@.chunks[k].gpu_mesh)
                &&& can_pool(self@.chunks[k].gpu_mesh_high_res)
            } by {
                assert(before@.chunks.contains_key(k));
                if before@.chunks[k].modified {
                    assert(before@.is_queued(before@.chunks[k].position));
                    assert(self@.queue == before@.queue);
                }
            }
        }
    }

    /// Changes the damage of every block that has some; `change` makes it of the block and its damage.
    pub fn change_damage<G: Fn(BlockEntry, F) -> F + Copy>(&mut self, change: G) where F: Copy
        requires
            old(self).wf(),
            forall|block: BlockEntry, damage: F| #[trigger] call_requires(change, (block, damage)),
        ensures
            final(self).wf(),
            final(self).same_meshes(*old(self)),
            final(self)@.queue == old(self)@.queue,
            final(self)@.chunks.dom() == old(self)@.chunks.dom(),
            forall|key: u128| #[trigger]
                old(self)@.chunks.contains_key(key) ==> are_damages_changed(
                    old(self)@.chunks[key],
                    final(self)@.chunks[key],
                    change,
                ),
    {
        let ghost before = self@;
        let ghost order = self.chunks.order();
        proof {
            crate::keyed_store::law_walk_is_complete(self.chunks);
            assert forall|j: int| 0 <= j < order.len() implies before.chunks.contains_key(
                #[trigger] order[j],
            ) by {
                assert(self.chunks.order().contains(order[j]));
                assert(self.chunks@.contains_key(order[j]));
            }
        }
        let mut i: usize = 0;
        while i < self.chunks.len()
            invariant
                i <= order.len(),
                order == self.chunks.order(),
                order.no_duplicates(),
                self.wf(),
                before == old(self)@,
                forall|block: BlockEntry, damage: F| #[trigger]
                    call_requires(change, (block, damage)),
                self.same_meshes(*old(self)),
                self@.queue == before.queue,
                self@.chunks.dom() == before.chunks.dom(),
                forall|j: int|
                    0 <= j < order.len() ==> before.chunks.contains_key(#[trigger] order[j]),
                forall|j: int|
                    0 <= j < i ==> are_damages_changed(
                        before.chunks[#[trigger] order[j]],
                        self@.chunks[order[j]],
                        change,
                    ),
                forall|j: int|
                    i <= j < order.len() ==> self@.chunks[#[trigger] order[j]]
                        == before.chunks[order[j]],
            decreases order.len() - i,
        {
            let ghost last = *self;
            let key = self.chunks.entry(i).0;
            assert(before.chunks.contains_key(key));
            assert(self@.chunks.dom().contains(key));
            assert(self@.chunks.contains_key(key));
            match self.chunks.get_mut(key) {
                Some(chunk) => {
                    chunk.change_damage(change);
                },
                None => {},
            }
            proof {
                assert(self@.chunks =~= last@.chunks.insert(key, self@.chunks[key]));
                assert(self@.chunks.dom() =~= last@.chunks.dom());
                assert forall|k: u128| #[trigger] self@.chunks.contains_key(k) implies {
                    &&& k == chunk_key_spec(self@.chunks[k].position)
                    &&& self@.chunks[k].blocks.len() == CHUNK_BLOCKS
                    &&& self@.chunks[k].components.wf()
                    &&& self@.chunks[k].modified ==> self@.is_queued(self@.chunks[k].position)
                    &&& can_pool(self@.chunks[k].gpu_mesh)
                    &&& can_pool(self@.chunks[k].gpu_mesh_high_res)
                } by {
                    assert(last@.chunks.contains_key(k));
                    if last@.chunks[k].modified {
                        assert(last@.is_queued(last@.chunks[k].position));
                        assert(self@.queue == last@.queue);
                    }
                }
            }
            i += 1;
        }
        proof {
            crate::keyed_store::law_walk_is_complete(self.chunks);
            assert forall|key: u128| #[trigger]
                before.chunks.contains_key(key) implies are_damages_changed(
                before.chunks[key],
                self@.chunks[key],
                change,
            ) by {
                assert(self@.chunks.dom().contains(key));
                assert(self.chunks@.contains_key(key));
                assert(self.chunks.order().contains(key));
                let j = choose|j: int| 0 <= j < order.len() && order[j] == key;
            }
        }
    }

    /// Takes the queue and returns the chunks whose meshes have to be built, in the order in which
    /// they are served: those that are known and not being built already.
    pub fn schedule_meshes(&mut self) -> (jobs: Vec<ChunkPos>)
        requires
            old(self).wf(),
            old(self).chunk_mesh_queue_size + old(self)@.queue.len() <= usize::MAX,
        ensures
            final(self).wf(),
            final(self)@.queue.len() == 0,
            final(self)@.chunks == served(old(self)@, old(self)@.queue),
            final(self).chunk_mesh_queue_size == old(self).chunk_mesh_queue_size + jobs@.len(),
            final(self).chunk_buffer_pool == old(self).chunk_buffer_pool,
            are_jobs(old(self)@, old(self)@.queue, jobs@),
    {
        let mut jobs: Vec<ChunkPos> = Vec::new();
        let ghost start = self@;
        let ghost mut popped = Seq::<ModifiedChunkEntry>::empty();
        let ghost mut firsts = Seq::<ModifiedChunkEntry>::empty();
        assert(served(start, popped) =~= self@.chunks);
        while self.modified_chunks.entries.len() > 0
            invariant
                self.wf(),
                start.wf(),
                start == old(self)@,
                is_split(start.queue, popped, self@.queue),
                popped.len() + self@.queue.len() == start.queue.len(),
                self@.chunks == served(start, popped),
                old(self).chunk_mesh_queue_size + start.queue.len() <= usize::MAX,
                self.chunk_mesh_queue_size == old(self).chunk_mesh_queue_size + jobs@.len(),
                jobs@.len() <= popped.len(),
                self.chunk_buffer_pool == old(self).chunk_buffer_pool,
                are_firsts(start, popped, jobs@, firsts),
            decreases self@.queue.len(),
        {
            let ghost before = *self;
            let entry = match self.modified_chunks.pop() {
                Some(entry) => entry,
                None => {
                    return jobs;
                },
            };
            let ghost at = choose|i: int|
                {
                    &&& #[trigger] is_first(before@.queue, i)
                    &&& entry == before@.queue[i]
                    &&& self@.queue == before@.queue.remove(i)
                };
            let ghost earlier = popped;
            let ghost earlier_firsts = firsts;
            let ghost earlier_jobs = jobs@;
            proof {
                popped = popped.push(entry);
                lemma_split_moves(start.queue, earlier, before@.queue, at);
            }
            let key = chunk_key(entry.chunk);
            let ghost known = start.has(entry.chunk);
            let mut is_job = false;
            match self.chunks.get_mut(key) {
                Some(chunk) => {
                    chunk.modified = false;
                    if !chunk.scheduled {
                        chunk.scheduled = true;
                        is_job = true;
                    }
                },
                None => {},
            }
            if is_job {
                self.chunk_mesh_queue_size += 1;
                jobs.push(entry.chunk);
                proof {
                    firsts = firsts.push(entry);
                }
            }
            proof {
                lemma_served_push(start, earlier, entry);
                assert(before@.chunks.contains_key(key) == start.has(entry.chunk));
                assert(self@.chunks =~= served(start, popped)) by {
                    assert forall|k: u128| #[trigger] self@.chunks.contains_key(k) implies self@.chunks[k]
                        == served(start, popped)[k] by {
                        assert(before@.chunks.contains_key(k));
                        assert(before@.chunks[k] == served(start, earlier)[k]);
                        if k != key {
                            assert(self@.chunks[k] == before@.chunks[k]);
                        }
                    }
                    assert(before@.chunks.dom() =~= start.chunks.dom());
                    assert(before@.chunks.dom() =~= before.chunks@.dom());
                    assert(self@.chunks.dom() =~= self.chunks@.dom());
                    assert(self.chunks@.dom() =~= before.chunks@.dom());
                }
                assert forall|k: u128| #[trigger] self@.chunks.contains_key(k) implies {
                    &&& k == chunk_key_spec(self@.chunks[k].position)
                    &&& self@.chunks[k].blocks.len() == CHUNK_BLOCKS
                    &&& self@.chunks[k].components.wf()
                    &&& self@.chunks[k].modified ==> self@.is_queued(self@.chunks[k].position)
                    &&& can_pool(self@.chunks[k].gpu_mesh)
                    &&& can_pool(self@.chunks[k].gpu_mesh_high_res)
                } by {
                    assert(before@.chunks.contains_key(k));
                    assert(start.chunks.contains_key(k));
                    let position = start.chunks[k].position;
                    if self@.chunks[k].modified {
                        assert(!is_among(popped, position));
                        assert(start.is_queued(position));
                        let i = choose|i: int|
                            0 <= i < start.queue.len() && (
                            #[trigger] start.queue[i]).chunk == position;
                        assert(start.queue.contains(start.queue[i]));
                        assert(popped.contains(start.queue[i]) || self@.queue.contains(
                            start.queue[i],
                        ));
                        if popped.contains(start.queue[i]) {
                            let j = choose|j: int|
                                0 <= j < popped.len() && popped[j] == start.queue[i];
                            assert(popped[j].chunk == position);
                        } else {
                            let j = choose|j: int|
                                0 <= j < self@.queue.len() && self@.queue[j] == start.queue[i];
                            assert(self@.queue[j].chunk == position);
                        }
                    }
                }
                lemma_firsts_push(
                    start,
                    earlier,
                    earlier_jobs,
                    earlier_firsts,
                    entry,
                    before@.queue,
                );
            }
        }
        proof {
            assert forall|entry: ModifiedChunkEntry| #[trigger] start.queue.contains(entry) ==
                popped.contains(entry) by {}
            lemma_served_same(start, start.queue, popped);
            lemma_firsts_are_jobs(start, popped, jobs@, firsts);
        }
        jobs
    }

    /// The world after a mesh of the chunk at `position` arrived: the chunk is not being built any
    /// more, gives its buffers away and waits again if it has changed since `version`.
    pub open spec fn received(
        world: WorldModel<F, B>,
        player: ChunkPos,
        position: ChunkPos,
        version: u64,
    ) -> WorldModel<F, B> {
        let chunk = world.chunk(position);
        let is_outdated = version < chunk.version;
        let entry = ModifiedChunkEntry {
            distance: chunk_distance(player, position) as usize,
            chunk: position,
        };
        WorldModel {
            queue: if is_outdated && !chunk.modified {
                world.queue.push(entry)
            } else {
                world.queue
            },
            ..world.with(
                position,
                ChunkModel {
                    scheduled: false,
                    modified: chunk.modified || is_outdated,
                    gpu_mesh: GPUMesh { buffer: None, render_data: None },
                    gpu_mesh_high_res: GPUMesh { buffer: None, render_data: None },
                    ..chunk
                },
            )
        }
    }

    /// Takes over the meshes that were built for a chunk, given by whether each is empty and by its
    /// bytes, and returns where they go; `None` if the chunk is not known any more.
    pub fn receive_meshes(
        &mut self,
        player: ChunkPos,
        position: ChunkPos,
        version: u64,
        mesh: (bool, u64),
        mesh_high_res: (bool, u64),
    ) -> (r: Option<(Placement<B>, Placement<B>)>)
        requires
            old(self).wf(),
            old(self).chunk_mesh_queue_size > 0,
            old(self)@.has(position) && version < old(self)@.chunk(position).version && !old(
                self,
            )@.chunk(position).modified ==> near(player, position),
            mesh.1 <= max_buffer_size(),
            mesh_high_res.1 <= max_buffer_size(),
        ensures
            final(self).wf(),
            final(self).chunk_mesh_queue_size == old(self).chunk_mesh_queue_size - 1,
            match r {
                None => {
                    &&& !old(self)@.has(position)
                    &&& final(self)@ == old(self)@
                    &&& final(self).chunk_buffer_pool == old(self).chunk_buffer_pool
                },
                Some((first, second)) => {
                    &&& old(self)@.has(position)
                    &&& final(self)@ == Self::received(old(self)@, player, position, version)
                    &&& exists|between: ChunkBufferPool<B>| #[trigger]
                        ChunkBufferPool::placed(
                            old(self).chunk_buffer_pool,
                            between,
                            mesh.0,
                            mesh.1 as int,
                            old(self)@.chunk(position).gpu_mesh,
                            first,
                        ) && ChunkBufferPool::placed(
                            between,
                            final(self).chunk_buffer_pool,
                            mesh_high_res.0,
                            mesh_high_res.1 as int,
                            old(self)@.chunk(position).gpu_mesh_high_res,
                            second,
                        )
                },
            },
    {
        let ghost before = *self;
        self.chunk_mesh_queue_size -= 1;
        let key = chunk_key(position);
        match self.chunks.get_mut(key) {
            Some(chunk) => {
                proof {
                    assert(before@.chunks.contains_key(key));
                    assert(before@.chunk(position) == chunk@);
                    law_chunk_key_unique(before@.chunk(position).position, position);
                }
                chunk.scheduled = false;
                let first = self.chunk_buffer_pool.allocate_or_reuse(
                    mesh.0,
                    mesh.1,
                    chunk.gpu_mesh.take(),
                );
                let ghost between = self.chunk_buffer_pool;
                let second = self.chunk_buffer_pool.allocate_or_reuse(
                    mesh_high_res.0,
                    mesh_high_res.1,
                    chunk.gpu_mesh_high_res.take(),
                );
                if version < chunk.version {
                    if !chunk.modified {
                        chunk.modified = true;
                        self.modified_chunks.push(
                            ModifiedChunkEntry {
                                distance: distance_between(player, chunk.position),
                                chunk: chunk.position,
                            },
                        );
                    }
                }
                proof {
                    let after = Self::received(before@, player, position, version);
                    assert(self@.chunks =~= after.chunks);
                    assert(self@.queue =~= after.queue);
                    assert(self@ == after);
                    assert(ChunkBufferPool::placed(
                        before.chunk_buffer_pool,
                        between,
                        mesh.0,
                        mesh.1 as int,
                        before@.chunk(position).gpu_mesh,
                        first,
                    ));
                    assert forall|k: u128| #[trigger] self@.chunks.contains_key(k) implies {
                        &&& k == chunk_key_spec(self@.chunks[k].position)
                        &&& self@.chunks[k].blocks.len() == CHUNK_BLOCKS
                        &&& self@.chunks[k].components.wf()
                        &&& self@.chunks[k].modified ==> self@.is_queued(self@.chunks[k].position)
                        &&& can_pool(self@.chunks[k].gpu_mesh)
                        &&& can_pool(self@.chunks[k].gpu_mesh_high_res)
                    } by {
                        assert(before@.chunks.contains_key(k));
                        let p = before@.chunks[k].position;
                        if before@.chunks[k].modified {
                            assert(before@.is_queued(p));
                            let i = choose|i: int|
                                0 <= i < before@.queue.len() && (
                                #[trigger] before@.queue[i]).chunk == p;
                            assert(self@.queue[i].chunk == p);
                        } else if self@.chunks[k].modified {
                            assert(self@.queue[self@.queue.len() - 1].chunk == position);
                        }
                    }
                }
                Some((first, second))
            },
            None => {
                proof {
                    assert(!before@.chunks.contains_key(key));
                    assert(self@.chunks =~= before@.chunks);
                    assert(self@ == before@);
                    assert forall|k: u128| #[trigger] self@.chunks.contains_key(k) implies {
                        &&& self@.chunks[k].modified ==> self@.is_queued(self@.chunks[k].position)
                        &&& can_pool(self@.chunks[k].gpu_mesh)
                        &&& can_pool(self@.chunks[k].gpu_mesh_high_res)
                    } by {
                        assert(before@.chunks.contains_key(k));
                    }
                }
                None
            },
        }
    }

    /// Gives a known chunk the meshes that were uploaded for it.
    pub fn set_meshes(
        &mut self,
        position: ChunkPos,
        gpu_mesh: GPUMesh<B>,
        gpu_mesh_high_res: GPUMesh<B>,
    )
        requires
            old(self).wf(),
            old(self)@.has(position),
            can_pool(gpu_mesh),
            can_pool(gpu_mesh_high_res),
        ensures
            final(self).wf(),
            final(self).same_meshes(*old(self)),
            final(self)@ == old(self)@.with(
                position,
                ChunkModel { gpu_mesh, gpu_mesh_high_res, ..old(self)@.chunk(position) },
            ),
    {
        let ghost before = *self;
        let key = chunk_key(position);
        assert(before@.chunks.contains_key(key));
        match self.chunks.get_mut(key) {
            Some(chunk) => {
                chunk.gpu_mesh = gpu_mesh;
                chunk.gpu_mesh_high_res = gpu_mesh_high_res;
            },
            None => {},
        }
        proof {
            let after = before@.with(
                position,
                ChunkModel { gpu_mesh, gpu_mesh_high_res, ..before@.chunk(position) },
            );
            assert(self@.chunks =~= after.chunks);
            assert(self@ == after);
            assert forall|k: u128| #[trigger] self@.chunks.contains_key(k) implies {
                &&& k == chunk_key_spec(self@.chunks[k].position)
                &&& self@.chunks[k].blocks.len() == CHUNK_BLOCKS
                &&& self@.chunks[k].components.wf()
                &&& self@.chunks[k].modified ==> self@.is_queued(self@.chunks[k].position)
                &&& can_pool(self@.chunks[k].gpu_mesh)
                &&& can_pool(self@.chunks[k].gpu_mesh_high_res)
            } by {
                assert(before@.chunks.contains_key(k));
                if before@.chunks[k].modified {
                    assert(before@.is_queued(before@.chunks[k].position));
                    assert(self@.queue == before@.queue);
                }
            }
        }
    }
}

/// When the queue has been served, no chunk waits, and every chunk that waited is being built.
pub proof fn law_no_chunk_is_forgotten<F, B>(world: WorldModel<F, B>, position: ChunkPos)
    requires
        world.wf(),
        world.has(position),
    ensures
        !served(world, world.queue)[chunk_key_spec(position)].modified,
        world.chunk(position).modified ==> served(
            world,
            world.queue,
        )[chunk_key_spec(position)].scheduled,
{
    let chunk = world.chunk(position);
    if chunk.modified {
        assert(world.is_queued(chunk.position));
        let i = choose|i: int|
            0 <= i < world.queue.len() && (#[trigger] world.queue[i]).chunk == chunk.position;
        assert(is_among(world.queue, chunk.position));
    }
}

/// A chunk that changed while it was being built is built again: when the outdated mesh arrives, the
/// chunk waits for a new one.
pub proof fn law_outdated_mesh_is_rebuilt<F, B>(
    world: WorldModel<F, B>,
    player: ChunkPos,
    position: ChunkPos,
    version: u64,
)
    requires
        world.wf(),
        world.has(position),
        version < world.chunk(position).version,
    ensures
        ClientWorld::received(world, player, position, version).chunk(position).modified,
        ClientWorld::received(world, player, position, version).is_queued(position),
{
    let after = ClientWorld::received(world, player, position, version);
    let chunk = world.chunk(position);
    if chunk.modified {
        law_chunk_key_unique(chunk.position, position);
        assert(world.is_queued(position));
        assert(after.queue == world.queue);
    } else {
        assert(after.queue[after.queue.len() - 1].chunk == position);
    }
}

/// Whether an entry of a list belongs to a chunk.
pub open spec fn is_among(entries: Seq<ModifiedChunkEntry>, position: ChunkPos) -> bool {
    exists|i: int| 0 <= i < entries.len() && (#[trigger] entries[i]).chunk == position
}

/// The chunks after those of `entries` are served: they are being built and wait no longer.
pub open spec fn served<F, B>(world: WorldModel<F, B>, entries: Seq<ModifiedChunkEntry>) -> Map<
    u128,
    ChunkModel<F, B>,
> {
    Map::new(
        |key: u128| world.chunks.contains_key(key),
        |key: u128|
            if is_among(entries, world.chunks[key].position) {
                ChunkModel { modified: false, scheduled: true, ..world.chunks[key] }
            } else {
                world.chunks[key]
            },
    )
}

/// Whether a chunk of the queue has to be built.
pub open spec fn is_job<F, B>(
    world: WorldModel<F, B>,
    entries: Seq<ModifiedChunkEntry>,
    position: ChunkPos,
) -> bool {
    is_among(entries, position) && world.has(position) && !world.chunk(position).scheduled
}

/// Whether `firsts` are the entries by which the chunks of `jobs` are served: of each chunk that has
/// to be built the entry that no other of that chunk precedes, in the order of precedence.
pub open spec fn are_firsts<F, B>(
    world: WorldModel<F, B>,
    entries: Seq<ModifiedChunkEntry>,
    jobs: Seq<ChunkPos>,
    firsts: Seq<ModifiedChunkEntry>,
) -> bool {
    &&& firsts.len() == jobs.len()
    &&& forall|i: int|
        0 <= i < jobs.len() ==> {
            &&& (#[trigger] firsts[i]).chunk == jobs[i]
            &&& entries.contains(firsts[i])
            &&& is_job(world, entries, jobs[i])
        }
    &&& forall|i: int, e: ModifiedChunkEntry|
        0 <= i < jobs.len() && #[trigger] entries.contains(e) && e.chunk == jobs[i] ==> !e.precedes(
            #[trigger] firsts[i],
        )
    &&& forall|i: int, j: int| 0 <= i < j < jobs.len() ==> (#[trigger] firsts[i]).precedes(
        #[trigger] firsts[j],
    )
    &&& forall|i: int, j: int|
        0 <= i < j < jobs.len() ==> #[trigger] jobs[i] != #[trigger] jobs[j]
    &&& forall|position: ChunkPos| #[trigger]
        is_job(world, entries, position) ==> jobs.contains(position)
}

/// Whether `jobs` are the chunks of the queue that have to be built, each once and in the order in
/// which they are served.
pub open spec fn are_jobs<F, B>(
    world: WorldModel<F, B>,
    entries: Seq<ModifiedChunkEntry>,
    jobs: Seq<ChunkPos>,
) -> bool {
    exists|firsts: Seq<ModifiedChunkEntry>| are_firsts(world, entries, jobs, firsts)
}

/// Whether a list is divided into the entries that were taken and those that are left, which none of
/// them precede.
spec fn is_split(
    all: Seq<ModifiedChunkEntry>,
    taken: Seq<ModifiedChunkEntry>,
    left: Seq<ModifiedChunkEntry>,
) -> bool {
    &&& forall|entry: ModifiedChunkEntry| #[trigger]
        all.contains(entry) <==> taken.contains(entry) || left.contains(entry)
    &&& forall|a: ModifiedChunkEntry, b: ModifiedChunkEntry| #[trigger]
        taken.contains(a) && #[trigger] left.contains(b) ==> !b.precedes(a)
}

proof fn lemma_split_moves(
    all: Seq<ModifiedChunkEntry>,
    taken: Seq<ModifiedChunkEntry>,
    left: Seq<ModifiedChunkEntry>,
    at: int,
)
    requires
        is_split(all, taken, left),
        is_first(left, at),
    ensures
        is_split(all, taken.push(left[at]), left.remove(at)),
        left.contains(left[at]),
{
    let entry = left[at];
    let more = taken.push(entry);
    let rest = left.remove(at);
    assert(left.contains(entry));
    assert forall|e: ModifiedChunkEntry| more.contains(e) <==> taken.contains(e) || e == entry by {
        assert(more[taken.len() as int] == entry);
        if taken.contains(e) {
            let i = choose|i: int| 0 <= i < taken.len() && taken[i] == e;
            assert(more[i] == e);
        }
    }
    assert forall|e: ModifiedChunkEntry| rest.contains(e) implies left.contains(e) by {
        let i = choose|i: int| 0 <= i < rest.len() && rest[i] == e;
        assert(left[if i < at { i } else { i + 1 }] == e);
    }
    assert forall|e: ModifiedChunkEntry| left.contains(e) implies rest.contains(e) || e == entry by {
        let i = choose|i: int| 0 <= i < left.len() && left[i] == e;
        if i < at {
            assert(rest[i] == e);
        } else if i > at {
            assert(rest[i - 1] == e);
        }
    }
    assert forall|e: ModifiedChunkEntry| #[trigger] all.contains(e) <==> more.contains(e)
        || rest.contains(e) by {}
    assert forall|a: ModifiedChunkEntry, b: ModifiedChunkEntry| #[trigger]
        more.contains(a) && #[trigger] rest.contains(b) implies !b.precedes(a) by {
        assert(left.contains(b));
        if a == entry {
            let j = choose|j: int| 0 <= j < left.len() && left[j] == b;
            assert(!left[j].precedes(left[at]));
        }
    }
}

proof fn lemma_served_push<F, B>(
    world: WorldModel<F, B>,
    entries: Seq<ModifiedChunkEntry>,
    entry: ModifiedChunkEntry,
)
    requires
        world.wf(),
    ensures
        forall|key: u128| #[trigger]
            world.chunks.contains_key(key) ==> served(world, entries.push(entry))[key] == if key
                == chunk_key_spec(entry.chunk) {
                ChunkModel {
                    modified: false,
                    scheduled: true,
                    ..served(world, entries)[key]
                }
            } else {
                served(world, entries)[key]
            },
{
    let more = entries.push(entry);
    assert forall|position: ChunkPos| #[trigger] is_among(more, position) == (is_among(
        entries,
        position,
    ) || entry.chunk == position) by {
        assert(more[entries.len() as int] == entry);
        if is_among(entries, position) {
            let i = choose|i: int|
                0 <= i < entries.len() && (#[trigger] entries[i]).chunk == position;
            assert(more[i].chunk == position);
        }
        if is_among(more, position) {
            let i = choose|i: int| 0 <= i < more.len() && (#[trigger] more[i]).chunk == position;
            if i < entries.len() {
                assert(entries[i].chunk == position);
            }
        }
    }
    assert forall|key: u128| #[trigger] world.chunks.contains_key(key) implies served(
        world,
        more,
    )[key] == if key == chunk_key_spec(entry.chunk) {
        ChunkModel { modified: false, scheduled: true, ..served(world, entries)[key] }
    } else {
        served(world, entries)[key]
    } by {
        let position = world.chunks[key].position;
        assert(is_among(more, position) == (is_among(entries, position) || entry.chunk == position));
        if key == chunk_key_spec(entry.chunk) {
            law_chunk_key_unique(position, entry.chunk);
        }
    }
}

proof fn lemma_served_same<F, B>(
    world: WorldModel<F, B>,
    a: Seq<ModifiedChunkEntry>,
    b: Seq<ModifiedChunkEntry>,
)
    requires
        forall|entry: ModifiedChunkEntry| #[trigger] a.contains(entry) == b.contains(entry),
    ensures
        served(world, a) == served(world, b),
        forall|position: ChunkPos| #[trigger] is_job(world, a, position) == is_job(world, b, position),
{
    assert forall|position: ChunkPos| is_among(a, position) == is_among(b, position) by {
        if is_among(a, position) {
            let i = choose|i: int| 0 <= i < a.len() && (#[trigger] a[i]).chunk == position;
            assert(a.contains(a[i]));
            assert(b.contains(a[i]));
            let j = choose|j: int| 0 <= j < b.len() && b[j] == a[i];
            assert(b[j].chunk == position);
        }
        if is_among(b, position) {
            let i = choose|i: int| 0 <= i < b.len() && (#[trigger] b[i]).chunk == position;
            assert(b.contains(b[i]));
            assert(a.contains(b[i]) == b.contains(b[i]));
            let j = choose|j: int| 0 <= j < a.len() && a[j] == b[i];
            assert(a[j].chunk == position);
        }
    }
    assert(served(world, a) =~= served(world, b));
}

proof fn lemma_firsts_are_jobs<F, B>(
    world: WorldModel<F, B>,
    entries: Seq<ModifiedChunkEntry>,
    jobs: Seq<ChunkPos>,
    firsts: Seq<ModifiedChunkEntry>,
)
    requires
        are_firsts(world, entries, jobs, firsts),
        forall|entry: ModifiedChunkEntry| #[trigger]
            world.queue.contains(entry) == entries.contains(entry),
    ensures
        are_jobs(world, world.queue, jobs),
{
    lemma_served_same(world, world.queue, entries);
    assert forall|i: int| 0 <= i < jobs.len() implies {
        &&& (#[trigger] firsts[i]).chunk == jobs[i]
        &&& world.queue.contains(firsts[i])
        &&& is_job(world, world.queue, jobs[i])
    } by {
        assert(entries.contains(firsts[i]));
        assert(is_job(world, entries, jobs[i]));
        assert(world.queue.contains(firsts[i]) == entries.contains(firsts[i]));
        assert(is_job(world, world.queue, jobs[i]) == is_job(world, entries, jobs[i]));
    }
    assert forall|i: int, e: ModifiedChunkEntry|
        0 <= i < jobs.len() && #[trigger] world.queue.contains(e) && e.chunk == jobs[i] implies !e.precedes(
        #[trigger] firsts[i],
    ) by {
        assert(entries.contains(e));
    }
    assert(are_firsts(world, world.queue, jobs, firsts));
}

proof fn lemma_firsts_push<F, B>(
    world: WorldModel<F, B>,
    taken: Seq<ModifiedChunkEntry>,
    jobs: Seq<ChunkPos>,
    firsts: Seq<ModifiedChunkEntry>,
    entry: ModifiedChunkEntry,
    left: Seq<ModifiedChunkEntry>,
)
    requires
        world.wf(),
        is_split(world.queue, taken, left),
        left.contains(entry),
        are_firsts(world, taken, jobs, firsts),
    ensures
        ({
            let is_new = world.has(entry.chunk) && !world.chunk(entry.chunk).scheduled && !is_among(
                taken,
                entry.chunk,
            );
            are_firsts(
                world,
                taken.push(entry),
                if is_new {
                    jobs.push(entry.chunk)
                } else {
                    jobs
                },
                if is_new {
                    firsts.push(entry)
                } else {
                    firsts
                },
            )
        }),
{
    let is_new = world.has(entry.chunk) && !world.chunk(entry.chunk).scheduled && !is_among(
        taken,
        entry.chunk,
    );
    let more = taken.push(entry);
    let new_jobs = if is_new {
        jobs.push(entry.chunk)
    } else {
        jobs
    };
    let new_firsts = if is_new {
        firsts.push(entry)
    } else {
        firsts
    };
    assert forall|e: ModifiedChunkEntry| #[trigger] more.contains(e) <==> taken.contains(e) || e
        == entry by {
        assert(more[taken.len() as int] == entry);
        if taken.contains(e) {
            let i = choose|i: int| 0 <= i < taken.len() && taken[i] == e;
            assert(more[i] == e);
        }
    }
    assert forall|position: ChunkPos| #[trigger] is_among(more, position) == (is_among(
        taken,
        position,
    ) || entry.chunk == position) by {
        assert(more[taken.len() as int] == entry);
        if is_among(taken, position) {
            let i = choose|i: int| 0 <= i < taken.len() && (#[trigger] taken[i]).chunk == position;
            assert(more[i].chunk == position);
        }
        if is_among(more, position) {
            let i = choose|i: int| 0 <= i < more.len() && (#[trigger] more[i]).chunk == position;
            if i < taken.len() {
                assert(taken[i].chunk == position);
            }
        }
    }
    assert forall|i: int| 0 <= i < new_jobs.len() implies {
        &&& (#[trigger] new_firsts[i]).chunk == new_jobs[i]
        &&& more.contains(new_firsts[i])
        &&& is_job(world, more, new_jobs[i])
    } by {
        if i < jobs.len() {
            assert(taken.contains(firsts[i]));
            assert(is_job(world, taken, jobs[i]));
            assert(is_among(more, jobs[i]));
        } else {
            assert(is_among(more, entry.chunk));
        }
    }
    assert forall|i: int, e: ModifiedChunkEntry|
        0 <= i < new_jobs.len() && #[trigger] more.contains(e) && e.chunk == new_jobs[i] implies !e.precedes(
        #[trigger] new_firsts[i],
    ) by {
        if i < jobs.len() {
            assert(taken.contains(firsts[i]));
            if e == entry {
                assert(!entry.precedes(firsts[i]));
            } else {
                assert(taken.contains(e));
                assert(!e.precedes(firsts[i]));
            }
        } else if e != entry {
            assert(taken.contains(e));
            let j = choose|j: int| 0 <= j < taken.len() && taken[j] == e;
            assert(taken[j].chunk == entry.chunk);
        }
    }
    assert forall|i: int, j: int| 0 <= i < j < new_jobs.len() implies (
    #[trigger] new_firsts[i]).precedes(#[trigger] new_firsts[j]) by {
        if j == jobs.len() {
            assert(taken.contains(firsts[i]));
            assert(!entry.precedes(firsts[i]));
            assert(is_job(world, taken, jobs[i]));
            law_entries_ordered(firsts[i], entry, entry);
        } else {
            assert(firsts[i].precedes(firsts[j]));
        }
    }
    assert forall|i: int, j: int| 0 <= i < j < new_jobs.len() implies #[trigger] new_jobs[i]
        != #[trigger] new_jobs[j] by {
        if j == jobs.len() {
            assert(firsts[i].chunk == jobs[i]);
            assert(is_job(world, taken, jobs[i]));
        }
    }
    assert forall|position: ChunkPos| #[trigger] is_job(world, more, position) implies new_jobs.contains(
        position,
    ) by {
        assert(is_among(more, position));
        if is_among(taken, position) {
            assert(is_job(world, taken, position));
            let i = choose|i: int| 0 <= i < jobs.len() && jobs[i] == position;
            assert(new_jobs[i] == position);
        } else {
            assert(new_jobs[jobs.len() as int] == position);
        }
    }
}

/// A block lies within its chunk.
proof fn lemma_offset_in_chunk(position: BlockPos)
    ensures
        chunk_offset_spec(position).in_chunk(),
        chunk_offset_spec(position).0 < CHUNK_BLOCKS,
{
}

proof fn lemma_marked_blocks<F, B>(world: WorldModel<F, B>, player: ChunkPos, position: ChunkPos)
    ensures
        forall|key: u128| #[trigger]
            world.chunks.contains_key(key) ==> world.marked(player, position).chunks[key].blocks
                == world.chunks[key].blocks,
        forall|other: ChunkPos| #[trigger]
            world.is_queued(other) ==> world.marked(player, position).is_queued(other),
{
    let after = world.marked(player, position);
    assert forall|other: ChunkPos| #[trigger] world.is_queued(other) implies after.is_queued(other) by {
        let i = choose|i: int|
            0 <= i < world.queue.len() && (#[trigger] world.queue[i]).chunk == other;
        assert(after.queue[i].chunk == other);
    }
}

proof fn lemma_all_marked_blocks<F, B>(
    world: WorldModel<F, B>,
    player: ChunkPos,
    positions: Seq<ChunkPos>,
    marked: int,
)
    requires
        world.wf(),
        0 <= marked < positions.len(),
        world.has(positions[marked]),
    ensures
        forall|key: u128| #[trigger]
            world.chunks.contains_key(key) ==> world.all_marked(player, positions).chunks[key].blocks
                == world.chunks[key].blocks,
        world.all_marked(player, positions).is_queued(positions[marked]),
    decreases positions.len(),
{
    let before = positions.drop_last();
    let between = world.all_marked(player, before);
    lemma_all_marked(world, player, before, positions.last());
    lemma_marked_blocks(between, player, positions.last());
    if marked < before.len() {
        lemma_all_marked_blocks(world, player, before, marked);
        assert(before[marked] == positions[marked]);
    } else {
        lemma_marked(between, player, positions.last(), positions.last());
        assert(between.chunks.dom().contains(chunk_key_spec(positions.last())));
        let after = between.marked(player, positions.last());
        let key = chunk_key_spec(positions.last());
        assert(after.chunks.contains_key(key));
        law_chunk_key_unique(after.chunks[key].position, positions.last());
        assert(after.chunks[key].modified);
        lemma_blocks_kept(world, player, before);
    }
    lemma_blocks_kept(world, player, before);
    assert forall|key: u128| #[trigger] world.chunks.contains_key(key) implies world.all_marked(
        player,
        positions,
    ).chunks[key].blocks == world.chunks[key].blocks by {
        assert(between.chunks.dom().contains(key));
        assert(between.chunks.contains_key(key));
    }
}

proof fn lemma_blocks_kept<F, B>(world: WorldModel<F, B>, player: ChunkPos, positions: Seq<ChunkPos>)
    requires
        world.wf(),
    ensures
        forall|key: u128| #[trigger]
            world.chunks.contains_key(key) ==> world.all_marked(player, positions).chunks[key].blocks
                == world.chunks[key].blocks,
        world.all_marked(player, positions).chunks.dom() == world.chunks.dom(),
    decreases positions.len(),
{
    if positions.len() > 0 {
        let before = positions.drop_last();
        lemma_blocks_kept(world, player, before);
        lemma_all_marked(world, player, before, positions.last());
        let between = world.all_marked(player, before);
        lemma_marked_blocks(between, player, positions.last());
        lemma_marked(between, player, positions.last(), positions.last());
        assert forall|key: u128| #[trigger] world.chunks.contains_key(key) implies world.all_marked(
            player,
            positions,
        ).chunks[key].blocks == world.chunks[key].blocks by {
            assert(between.chunks.dom().contains(key));
            assert(between.chunks.contains_key(key));
        }
    }
}

/// After a block was set it is there, the blocks with other places are as before, and its chunk waits
/// for a new mesh.
pub proof fn lemma_set_block_stays<F, B>(
    world: WorldModel<F, B>,
    player: ChunkPos,
    position: BlockPos,
    block: BlockEntry,
)
    requires
        world.wf(),
        world.has(chunk_pos_spec(position)),
    ensures
        ({
            let after = ClientWorld::block_set(world, position, block).all_marked(
                player,
                affected_chunks(position),
            );
            let chunk = chunk_pos_spec(position);
            &&& after.chunks.dom() == world.chunks.dom()
            &&& after.block_at(position) == Some(block)
            &&& forall|other: BlockPos|
                chunk_pos_spec(other) != chunk || chunk_offset_spec(other) != chunk_offset_spec(
                    position,
                ) ==> #[trigger] after.block_at(other) == world.block_at(other)
            &&& after.is_queued(chunk)
        }),
{
    let set = ClientWorld::block_set(world, position, block);
    let chunk = chunk_pos_spec(position);
    let key = chunk_key_spec(chunk);
    lemma_offset_in_chunk(position);
    assert(world.chunks.contains_key(key));
    assert forall|k: u128| #[trigger] set.chunks.contains_key(k) implies {
        &&& k == chunk_key_spec(set.chunks[k].position)
        &&& set.chunks[k].blocks.len() == CHUNK_BLOCKS
        &&& set.chunks[k].components.wf()
        &&& set.chunks[k].modified ==> set.is_queued(set.chunks[k].position)
    } by {
        assert(world.chunks.contains_key(k));
        if world.chunks[k].modified {
            assert(world.is_queued(world.chunks[k].position));
            assert(set.queue == world.queue);
        }
    }
    assert(affected_chunks(position)[0] == chunk);
    assert(set.chunks.contains_key(key));
    lemma_all_marked_blocks(set, player, affected_chunks(position), 0);
    lemma_blocks_kept(set, player, affected_chunks(position));
    let after = set.all_marked(player, affected_chunks(position));
    assert(after.chunks.dom().contains(key));
    assert(set.chunk(chunk).blocks[chunk_offset_spec(position).0 as int] == block);
    assert(set.chunks.dom() =~= world.chunks.dom());
    assert forall|other: BlockPos|
        chunk_pos_spec(other) != chunk || chunk_offset_spec(other) != chunk_offset_spec(
            position,
        ) implies #[trigger] after.block_at(other) == world.block_at(other) by {
        let there = chunk_key_spec(chunk_pos_spec(other));
        lemma_offset_in_chunk(other);
        assert(after.chunks.dom().contains(there) == world.chunks.dom().contains(there));
        if world.chunks.contains_key(there) {
            assert(set.chunks.contains_key(there));
            if there == key {
                law_chunk_key_unique(chunk_pos_spec(other), chunk);
            }
        }
    }
}

/// What marking chunks does to one of them.
proof fn lemma_marked_chunk<F, B>(
    world: WorldModel<F, B>,
    player: ChunkPos,
    positions: Seq<ChunkPos>,
    chunk: ChunkPos,
)
    requires
        world.wf(),
        world.has(chunk),
    ensures
        world.all_marked(player, positions).has(chunk),
        ({
            let after = world.all_marked(player, positions).chunk(chunk);
            let before = world.chunk(chunk);
            &&& after.position == before.position
            &&& after.blocks == before.blocks
            &&& after.components == before.components
            &&& after.gpu_mesh == before.gpu_mesh
            &&& after.gpu_mesh_high_res == before.gpu_mesh_high_res
            &&& after.scheduled == before.scheduled
            &&& !positions.contains(chunk) ==> after == before
            &&& positions.contains(chunk) ==> after.modified && world.all_marked(
                player,
                positions,
            ).is_queued(chunk)
            &&& positions.contains(chunk) && positions.no_duplicates() ==> after.version == (
            before.version + 1) % 0x1_0000_0000_0000_0000
        }),
    decreases positions.len(),
{
    if positions.len() > 0 {
        let front = positions.drop_last();
        let last = positions.last();
        let between = world.all_marked(player, front);
        lemma_marked_chunk(world, player, front, chunk);
        lemma_all_marked(world, player, front, last);
        lemma_marked(between, player, last, chunk);
        lemma_marked_blocks(between, player, last);
        let after = between.marked(player, last);
        assert(positions =~= front.push(last));
        assert(between.chunks.contains_key(chunk_key_spec(chunk)));
        if last == chunk {
            assert(positions[positions.len() - 1] == chunk);
            assert(after.chunks.contains_key(chunk_key_spec(chunk)));
            law_chunk_key_unique(after.chunk(chunk).position, chunk);
            if positions.no_duplicates() && front.contains(chunk) {
                let i = choose|i: int| 0 <= i < front.len() && front[i] == chunk;
                assert(positions[i] == chunk);
            }
        } else {
            if chunk_key_spec(last) == chunk_key_spec(chunk) {
                law_chunk_key_unique(last, chunk);
            }
            if positions.contains(chunk) {
                let i = choose|i: int| 0 <= i < positions.len() && positions[i] == chunk;
                assert(front[i] == chunk);
            }
            if front.contains(chunk) {
                let i = choose|i: int| 0 <= i < front.len() && front[i] == chunk;
                assert(positions[i] == chunk);
            }
            if positions.no_duplicates() {
                assert forall|i: int, j: int|
                    0 <= i < front.len() && 0 <= j < front.len() && i != j implies front[i]
                    != front[j] by {
                    assert(positions[i] == front[i] && positions[j] == front[j]);
                }
            }
        }
    }
}

/// The neighbors of a chunk are those that lie beside it along one axis.
proof fn lemma_chunk_and_neighbors(position: ChunkPos, other: ChunkPos)
    requires
        is_inner(position),
    ensures
        chunk_and_neighbors(position).no_duplicates(),
        chunk_and_neighbors(position).contains(other) <==> {
            ||| other.x == position.x && other.y == position.y && -1 <= other.z - position.z <= 1
            ||| other.x == position.x && -1 <= other.y - position.y <= 1 && other.z == position.z
            ||| -1 <= other.x - position.x <= 1 && other.y == position.y && other.z == position.z
        },
{
    reveal_with_fuel(neighbors, 7);
    let all = Face::all_spec();
    assert(all[0] == Face::Front && all[1] == Face::Back && all[2] == Face::Up && all[3]
        == Face::Down && all[4] == Face::Left && all[5] == Face::Right);
    let list = chunk_and_neighbors(position);
    assert(list =~= seq![
        position,
        neighbor_chunk(position, Face::Front),
        neighbor_chunk(position, Face::Back),
        neighbor_chunk(position, Face::Up),
        neighbor_chunk(position, Face::Down),
        neighbor_chunk(position, Face::Left),
        neighbor_chunk(position, Face::Right),
    ]);
    assert(list[0] == position);
    assert(list[1] == neighbor_chunk(position, Face::Front));
    assert(list[2] == neighbor_chunk(position, Face::Back));
    assert(list[3] == neighbor_chunk(position, Face::Up));
    assert(list[4] == neighbor_chunk(position, Face::Down));
    assert(list[5] == neighbor_chunk(position, Face::Left));
    assert(list[6] == neighbor_chunk(position, Face::Right));
}

/// A chunk that was loaded holds the blocks and the components that came, has no mesh yet and waits for
/// one. The known chunks beside it get a new version and wait for a new mesh, because their borders may
/// have changed; every other chunk is as before.
pub proof fn law_loaded_chunk<F, B>(
    world: WorldModel<F, B>,
    player: ChunkPos,
    position: ChunkPos,
    blocks: Seq<BlockEntry>,
    components: ClientChunkBlockComponents<F>,
    other: ChunkPos,
)
    requires
        world.wf(),
        blocks.len() == CHUNK_BLOCKS,
        components.wf(),
        is_inner(position),
        other != position,
    ensures
        ({
            let after = ClientWorld::loaded(world, position, blocks, components).all_marked(
                player,
                chunk_and_neighbors(position),
            );
            let beside = (other.x - position.x) * (other.x - position.x) + (other.y - position.y) * (
            other.y - position.y) + (other.z - position.z) * (other.z - position.z) == 1;
            &&& after.has(position)
            &&& after.chunk(position).position == position
            &&& after.chunk(position).blocks == blocks
            &&& after.chunk(position).components == components
            &&& after.chunk(position).gpu_mesh.buffer is None
            &&& after.chunk(position).gpu_mesh_high_res.buffer is None
            &&& after.chunk(position).modified
            &&& !after.chunk(position).scheduled
            &&& after.chunk(position).version == 1
            &&& after.is_queued(position)
            &&& after.has(other) == world.has(other)
            &&& world.has(other) ==> after.chunk(other).blocks == world.chunk(other).blocks
            &&& world.has(other) && beside ==> after.is_queued(other) && after.chunk(other).modified
                && after.chunk(other).version == (world.chunk(other).version + 1)
                % 0x1_0000_0000_0000_0000
            &&& world.has(other) && !beside ==> after.chunk(other) == world.chunk(other)
        }),
{
    let fresh = ClientWorld::loaded(world, position, blocks, components);
    let positions = chunk_and_neighbors(position);
    let after = fresh.all_marked(player, positions);
    assert forall|k: u128| #[trigger] fresh.chunks.contains_key(k) implies {
        &&& k == chunk_key_spec(fresh.chunks[k].position)
        &&& fresh.chunks[k].blocks.len() == CHUNK_BLOCKS
        &&& fresh.chunks[k].components.wf()
        &&& fresh.chunks[k].modified ==> fresh.is_queued(fresh.chunks[k].position)
    } by {
        if k != chunk_key_spec(position) {
            assert(world.chunks.contains_key(k));
            if world.chunks[k].modified {
                assert(world.is_queued(world.chunks[k].position));
                assert(fresh.queue == world.queue);
            }
        }
    }
    lemma_chunk_and_neighbors(position, other);
    lemma_chunk_and_neighbors(position, position);
    lemma_marked_chunk(fresh, player, positions, position);
    lemma_all_marked(fresh, player, positions, other);
    if chunk_key_spec(other) == chunk_key_spec(position) {
        law_chunk_key_unique(other, position);
    }
    assert(after.chunks.dom().contains(chunk_key_spec(other)) == fresh.chunks.dom().contains(
        chunk_key_spec(other),
    ));
    lemma_squares_of_steps(other.x - position.x, other.y - position.y, other.z - position.z);
    if world.has(other) {
        lemma_marked_chunk(fresh, player, positions, other);
        assert(fresh.chunk(other) == world.chunk(other));
    }
}

proof fn lemma_squares_of_steps(x: int, y: int, z: int)
    ensures
        x * x + y * y + z * z == 1 <==> {
            ||| x == 0 && y == 0 && (z == 1 || z == -1)
            ||| x == 0 && (y == 1 || y == -1) && z == 0
            ||| (x == 1 || x == -1) && y == 0 && z == 0
        },
{
    assert(x * x >= 0 && y * y >= 0 && z * z >= 0) by (nonlinear_arith);
    assert(x != 0 ==> x * x >= 1) by (nonlinear_arith);
    assert(y != 0 ==> y * y >= 1) by (nonlinear_arith);
    assert(z != 0 ==> z * z >= 1) by (nonlinear_arith);
    assert(x == 1 || x == -1 ==> x * x == 1) by (nonlinear_arith);
    assert(y == 1 || y == -1 ==> y * y == 1) by (nonlinear_arith);
    assert(z == 1 || z == -1 ==> z * z == 1) by (nonlinear_arith);
    assert(x > 1 || x < -1 ==> x * x > 1) by (nonlinear_arith);
    assert(y > 1 || y < -1 ==> y * y > 1) by (nonlinear_arith);
    assert(z > 1 || z < -1 ==> z * z > 1) by (nonlinear_arith);
}

/// A chunk that was forgotten is not known any more; every other chunk is as before.
pub proof fn law_unloaded_chunk<F, B>(
    before: WorldModel<F, B>,
    after: WorldModel<F, B>,
    position: ChunkPos,
    other: ChunkPos,
)
    requires
        after.chunks == before.chunks.remove(chunk_key_spec(position)),
        other != position,
    ensures
        !after.has(position),
        after.has(other) == before.has(other),
        before.has(other) ==> after.chunk(other) == before.chunk(other),
{
    if chunk_key_spec(other) == chunk_key_spec(position) {
        law_chunk_key_unique(other, position);
    }
}

/// When a block changes, its chunk gets a new version and waits for a new mesh, and so does every known
/// chunk that a block beside it belongs to.
pub proof fn law_set_block_wakes_neighbors<F, B>(
    world: WorldModel<F, B>,
    player: ChunkPos,
    position: BlockPos,
    block: BlockEntry,
    face: Face,
    next: BlockPos,
)
    requires
        world.wf(),
        world.has(chunk_pos_spec(position)),
        is_inner(chunk_pos_spec(position)),
        crate::coord::has_own_chunk(position),
        crate::coord::has_own_chunk(next),
        next.x - position.x == face.offset().x,
        next.y - position.y == face.offset().y,
        next.z - position.z == face.offset().z,
        world.has(chunk_pos_spec(next)),
        chunk_pos_spec(next) != chunk_pos_spec(position),
    ensures
        ({
            let after = ClientWorld::block_set(world, position, block).all_marked(
                player,
                affected_chunks(position),
            );
            &&& after.chunk(chunk_pos_spec(position)).modified
            &&& after.is_queued(chunk_pos_spec(position))
            &&& after.chunk(chunk_pos_spec(next)).modified
            &&& after.is_queued(chunk_pos_spec(next))
        }),
{
    let set = ClientWorld::block_set(world, position, block);
    let chunk = chunk_pos_spec(position);
    let there = chunk_pos_spec(next);
    let key = chunk_key_spec(chunk);
    lemma_offset_in_chunk(position);
    assert(world.chunks.contains_key(key));
    assert forall|k: u128| #[trigger] set.chunks.contains_key(k) implies {
        &&& k == chunk_key_spec(set.chunks[k].position)
        &&& set.chunks[k].blocks.len() == CHUNK_BLOCKS
        &&& set.chunks[k].components.wf()
        &&& set.chunks[k].modified ==> set.is_queued(set.chunks[k].position)
    } by {
        assert(world.chunks.contains_key(k));
        if world.chunks[k].modified {
            assert(world.is_queued(world.chunks[k].position));
            assert(set.queue == world.queue);
        }
    }
    let offset = chunk_offset_spec(position).xyz_spec();
    crate::coord::law_block_pos_splits(position);
    crate::coord::law_block_pos_splits(next);
    crate::coord::law_chunk_offset_unpacks(
        position.x as int % 32,
        position.y as int % 32,
        position.z as int % 32,
    );
    assert(there == neighbor_chunk(chunk, face));
    law_bordering_chunk_affected(position, face);
    assert(affected_chunks(position)[0] == chunk);
    lemma_marked_chunk(set, player, affected_chunks(position), chunk);
    lemma_marked_chunk(set, player, affected_chunks(position), there);
}

/// A chunk that has to wait waits at the square of its distance from the player, and the nearer of two
/// chunks is served first.
pub proof fn law_nearer_chunks_first<F, B>(
    world: WorldModel<F, B>,
    player: ChunkPos,
    position: ChunkPos,
    a: ModifiedChunkEntry,
    b: ModifiedChunkEntry,
)
    requires
        world.has(position),
        near(player, position),
    ensures
        !world.chunk(position).modified ==> {
            let queue = world.marked(player, position).queue;
            let entry = queue.last();
            let (dx, dy, dz) = (
                player.x - position.x,
                player.y - position.y,
                player.z - position.z,
            );
            &&& queue.len() == world.queue.len() + 1
            &&& queue.drop_last() == world.queue
            &&& entry.chunk == position
            &&& entry.distance == dx * dx + dy * dy + dz * dz
        },
        world.chunk(position).modified ==> world.marked(player, position).queue == world.queue,
        a.distance < b.distance ==> a.precedes(b) && !b.precedes(a),
{
    assert(world.marked(player, position).queue.drop_last() =~= world.queue || world.chunk(
        position,
    ).modified);
    lemma_squares(player.x - position.x, player.y - position.y, player.z - position.z);
}

/// A mesh that arrives ends the building of its chunk. Its blocks, components and version stay, it gives
/// its old buffers away, and it waits again only if it waited before or has changed since the mesh was
/// begun. Every other chunk is as before.
pub proof fn law_arrived_mesh<F, B>(
    world: WorldModel<F, B>,
    player: ChunkPos,
    position: ChunkPos,
    version: u64,
    other: ChunkPos,
)
    requires
        world.has(position),
        other != position,
    ensures
        ({
            let before = world.chunk(position);
            let world_after = ClientWorld::received(world, player, position, version);
            let after = world_after.chunk(position);
            &&& !after.scheduled
            &&& after.modified <==> before.modified || version < before.version
            &&& after.version == before.version
            &&& after.blocks == before.blocks
            &&& after.components == before.components
            &&& after.gpu_mesh.buffer is None && after.gpu_mesh.render_data is None
            &&& after.gpu_mesh_high_res.buffer is None && after.gpu_mesh_high_res.render_data is None
            &&& version >= before.version ==> world_after.queue == world.queue
            &&& world_after.has(other) == world.has(other)
            &&& world.has(other) ==> world_after.chunk(other) == world.chunk(other)
        }),
{
    if chunk_key_spec(other) == chunk_key_spec(position) {
        law_chunk_key_unique(other, position);
    }
}

/// Chunks that are served keep their blocks, their version and their meshes; those that did not wait
/// keep everything.
pub proof fn law_served_chunks_keep_blocks<F, B>(
    world: WorldModel<F, B>,
    entries: Seq<ModifiedChunkEntry>,
    position: ChunkPos,
)
    requires
        world.wf(),
        world.has(position),
    ensures
        ({
            let before = world.chunk(position);
            let after = served(world, entries)[chunk_key_spec(position)];
            let is_waiting = exists|i: int|
                0 <= i < entries.len() && (#[trigger] entries[i]).chunk == position;
            &&& served(world, entries).dom() == world.chunks.dom()
            &&& after.blocks == before.blocks
            &&& after.components == before.components
            &&& after.version == before.version
            &&& after.gpu_mesh == before.gpu_mesh
            &&& is_waiting ==> after.scheduled && !after.modified
            &&& !is_waiting ==> after == before
        }),
{
    assert(served(world, entries).dom() =~= world.chunks.dom());
    law_chunk_key_unique(world.chunk(position).position, position);
}

/// A change of a block marks the neighbor on a side where the block lies on that border of the chunk,
/// or between the borders on another axis.
pub proof fn law_affected_sides(offset: BlockPos)
    requires
        0 <= offset.x < 32,
        0 <= offset.y < 32,
        0 <= offset.z < 32,
    ensures
        ({
            let between = |v: i32| 0 < v < 31;
            let (x, y, z) = (between(offset.x), between(offset.y), between(offset.z));
            &&& is_affected(offset, Face::Left) <==> offset.x == 0 || y || z
            &&& is_affected(offset, Face::Right) <==> offset.x == 31 || y || z
            &&& is_affected(offset, Face::Down) <==> offset.y == 0 || x || z
            &&& is_affected(offset, Face::Up) <==> offset.y == 31 || x || z
            &&& is_affected(offset, Face::Front) <==> offset.z == 0 || x || y
            &&& is_affected(offset, Face::Back) <==> offset.z == 31 || x || y
        }),
{
}

/// Of chunks at one distance that with the greater coordinate is served first: `x` counts before `y`,
/// and `y` before `z`.
pub proof fn law_equally_near_chunks(a: ModifiedChunkEntry, b: ModifiedChunkEntry)
    requires
        a.distance == b.distance,
    ensures
        a.chunk.x > b.chunk.x ==> a.precedes(b) && !b.precedes(a),
        a.chunk.x == b.chunk.x && a.chunk.y > b.chunk.y ==> a.precedes(b) && !b.precedes(a),
        a.chunk.x == b.chunk.x && a.chunk.y == b.chunk.y && a.chunk.z > b.chunk.z ==> a.precedes(b)
            && !b.precedes(a),
        a.chunk == b.chunk ==> !a.precedes(b),
{
}

} // verus!
