//! Buildings that are placed into the world block by block.

use crate::aabb::AABB;
use crate::block::{BlockColor, BlockEntry, BlockKey, BlockRotationMode};
use crate::coord::{BlockPos, Vec3};
use crate::face::{Face, HorizontalFace};
use crate::registry::{BlockData, Key, KeyGroup, LootTableData};
use crate::rotation::BlockRotation;
use vstd::prelude::*;

verus! {

/// One block of a building.
#[derive(Clone, Copy)]
pub struct PrefabEntry {
    pub x: i32,
    pub y: i32,
    pub z: i32,
    pub replace: KeyGroup<BlockData>,
    pub replace_inverted: bool,
    pub block: BlockKey,
    pub rotation: BlockRotation,
    pub color: BlockColor,
    pub loot_table: Option<Key<LootTableData>>,
}

impl PrefabEntry {
    pub open spec fn position(self) -> BlockPos {
        Vec3 { x: self.x, y: self.y, z: self.z }
    }
}

pub struct PrefabData {
    pub blocks: Vec<PrefabEntry>,
}

/// A block of a building where it is placed.
#[derive(Clone, Copy)]
pub struct PlacedBlock {
    pub position: BlockPos,
    pub block: BlockEntry,
    /// The place of the block's entry in the building.
    pub entry: usize,
}

/// Whether `r` is the least box that holds the positions of `blocks`: it holds them all, and each
/// of its sides touches one.
pub open spec fn bounds(blocks: Seq<PrefabEntry>, r: AABB<i32>) -> bool {
    &&& forall|i: int|
        0 <= i < blocks.len() ==> {
            let p = (#[trigger] blocks[i]).position();
            r.min.x <= p.x <= r.max.x && r.min.y <= p.y <= r.max.y && r.min.z <= p.z <= r.max.z
        }
    &&& exists|i: int| 0 <= i < blocks.len() && (#[trigger] blocks[i]).x == r.min.x
    &&& exists|i: int| 0 <= i < blocks.len() && (#[trigger] blocks[i]).x == r.max.x
    &&& exists|i: int| 0 <= i < blocks.len() && (#[trigger] blocks[i]).y == r.min.y
    &&& exists|i: int| 0 <= i < blocks.len() && (#[trigger] blocks[i]).y == r.max.y
    &&& exists|i: int| 0 <= i < blocks.len() && (#[trigger] blocks[i]).z == r.min.z
    &&& exists|i: int| 0 <= i < blocks.len() && (#[trigger] blocks[i]).z == r.max.z
}

fn widen(bb: AABB<i32>, p: BlockPos) -> (r: AABB<i32>)
    ensures
        r.min.x == if p.x < bb.min.x { p.x } else { bb.min.x },
        r.min.y == if p.y < bb.min.y { p.y } else { bb.min.y },
        r.min.z == if p.z < bb.min.z { p.z } else { bb.min.z },
        r.max.x == if p.x > bb.max.x { p.x } else { bb.max.x },
        r.max.y == if p.y > bb.max.y { p.y } else { bb.max.y },
        r.max.z == if p.z > bb.max.z { p.z } else { bb.max.z },
{
    AABB {
        min: Vec3 {
            x: if p.x < bb.min.x { p.x } else { bb.min.x },
            y: if p.y < bb.min.y { p.y } else { bb.min.y },
            z: if p.z < bb.min.z { p.z } else { bb.min.z },
        },
        max: Vec3 {
            x: if p.x > bb.max.x { p.x } else { bb.max.x },
            y: if p.y > bb.max.y { p.y } else { bb.max.y },
            z: if p.z > bb.max.z { p.z } else { bb.max.z },
        },
    }
}

/// Whether the block of an entry lies within reach when the building is placed.
pub open spec fn entry_fits(entry: PrefabEntry, position: BlockPos, rotation: BlockRotation) -> bool {
    let o = rotation.orientation();
    let r = o.rotated(entry.position());
    &&& o.can_rotate(entry.position())
    &&& i32::MIN <= position.x + r.0 <= i32::MAX
    &&& i32::MIN <= position.y + r.1 <= i32::MAX
    &&& i32::MIN <= position.z + r.2 <= i32::MAX
}

/// Whether `placed` is the block of the entry at `i`, where it is placed.
pub open spec fn is_placed(
    entry: PrefabEntry,
    i: int,
    position: BlockPos,
    rotation: BlockRotation,
    mode: BlockRotationMode,
    placed: PlacedBlock,
) -> bool {
    let r = rotation.orientation().rotated(entry.position());
    &&& placed.entry == i
    &&& placed.position.x == position.x + r.0
    &&& placed.position.y == position.y + r.1
    &&& placed.position.z == position.z + r.2
    &&& placed.block.block == entry.block
    &&& placed.block.color == entry.color
    &&& exists|turned: BlockRotation| #[trigger]
        turned.orientation() == rotation.orientation().compose_spec(entry.rotation.orientation())
            && mode.is_nearest(turned, placed.block.rotation)
}

/// The entries before `n` that are drawn.
pub open spec fn drawn(draws: Seq<bool>, n: int) -> Seq<int>
    decreases n,
{
    if n <= 0 {
        Seq::empty()
    } else if draws[n - 1] {
        drawn(draws, n - 1).push(n - 1)
    } else {
        drawn(draws, n - 1)
    }
}

/// Whether `placed` is the `k`-th block of a building that is drawn, where it is placed.
pub open spec fn is_placed_as(
    blocks: Seq<PrefabEntry>,
    drawn: Seq<int>,
    k: int,
    position: BlockPos,
    rotation: BlockRotation,
    modes: Seq<BlockRotationMode>,
    placed: PlacedBlock,
) -> bool {
    let i = drawn[k];
    is_placed(
        blocks[i],
        i,
        position,
        rotation,
        modes[blocks[i].block.index()],
        placed,
    )
}

impl PrefabData {
    /// The least box that holds the building.
    pub fn bounding_box(&self) -> (r: AABB<i32>)
        requires
            self.blocks@.len() > 0,
        ensures
            bounds(self.blocks@, r),
    {
        let first = self.blocks[0];
        let corner = Vec3 { x: first.x, y: first.y, z: first.z };
        let mut bb = AABB { min: corner, max: corner };
        let mut i: usize = 1;
        assert(self.blocks@.take(1)[0] == first);
        assert(bounds(self.blocks@.take(1), bb)) by {
            let b = self.blocks@.take(1);
            assert(b[0].x == bb.min.x && b[0].y == bb.min.y && b[0].z == bb.min.z);
        }
        while i < self.blocks.len()
            invariant
                1 <= i <= self.blocks@.len(),
                bounds(self.blocks@.take(i as int), bb),
            decreases self.blocks@.len() - i,
        {
            let part = self.blocks[i];
            let ghost before = bb;
            bb = widen(bb, Vec3 { x: part.x, y: part.y, z: part.z });
            proof {
                let old_blocks = self.blocks@.take(i as int);
                let new_blocks = self.blocks@.take(i + 1);
                assert(new_blocks[i as int] == part);
                assert forall|j: int| 0 <= j < old_blocks.len() implies old_blocks[j]
                    == #[trigger] new_blocks[j] by {}
                let a = choose|j: int|
                    0 <= j < old_blocks.len() && (#[trigger] old_blocks[j]).x == before.min.x;
                let b = choose|j: int|
                    0 <= j < old_blocks.len() && (#[trigger] old_blocks[j]).x == before.max.x;
                let c = choose|j: int|
                    0 <= j < old_blocks.len() && (#[trigger] old_blocks[j]).y == before.min.y;
                let d = choose|j: int|
                    0 <= j < old_blocks.len() && (#[trigger] old_blocks[j]).y == before.max.y;
                let e = choose|j: int|
                    0 <= j < old_blocks.len() && (#[trigger] old_blocks[j]).z == before.min.z;
                let f = choose|j: int|
                    0 <= j < old_blocks.len() && (#[trigger] old_blocks[j]).z == before.max.z;
                assert(new_blocks[a] == old_blocks[a]);
                assert(new_blocks[b] == old_blocks[b]);
                assert(new_blocks[c] == old_blocks[c]);
                assert(new_blocks[d] == old_blocks[d]);
                assert(new_blocks[e] == old_blocks[e]);
                assert(new_blocks[f] == old_blocks[f]);
            }
            i += 1;
        }
        assert(self.blocks@.take(self.blocks@.len() as int) =~= self.blocks@);
        bb
    }

    /// The blocks of the building where it is placed, turned to look to `rotation`. `draws` tells
    /// which entries are drawn; `modes` holds the rotations that each kind of block can have.
    pub fn build(
        &self,
        position: BlockPos,
        rotation: HorizontalFace,
        draws: &Vec<bool>,
        modes: &Vec<BlockRotationMode>,
    ) -> (r: Vec<PlacedBlock>)
        requires
            draws@.len() == self.blocks@.len(),
            forall|i: int|
                0 <= i < self.blocks@.len() ==> (#[trigger] self.blocks@[i]).block.index()
                    < modes@.len(),
            forall|i: int, turn: BlockRotation|
                0 <= i < self.blocks@.len() && draws@[i] && turn.front() == rotation.face_spec()
                    && turn.up() == Face::Up ==> #[trigger] entry_fits(
                    self.blocks@[i],
                    position,
                    turn,
                ),
        ensures
            r@.len() == drawn(draws@, draws@.len() as int).len(),
            forall|k: int, turn: BlockRotation|
                0 <= k < r@.len() && turn.front() == rotation.face_spec() && turn.up() == Face::Up
                    ==> #[trigger] is_placed_as(
                    self.blocks@,
                    drawn(draws@, draws@.len() as int),
                    k,
                    position,
                    turn,
                    modes@,
                    r@[k],
                ),
    {
        let turn = BlockRotation::looking_to_horizontal(rotation);
        let mut placed: Vec<PlacedBlock> = Vec::new();
        let mut i: usize = 0;
        while i < self.blocks.len()
            invariant
                i <= self.blocks@.len(),
                draws@.len() == self.blocks@.len(),
                turn.front() == rotation.face_spec(),
                turn.up() == Face::Up,
                forall|i: int|
                    0 <= i < self.blocks@.len() ==> (#[trigger] self.blocks@[i]).block.index()
                        < modes@.len(),
                forall|i: int, turn: BlockRotation|
                    0 <= i < self.blocks@.len() && draws@[i] && turn.front() == rotation.face_spec()
                        && turn.up() == Face::Up ==> #[trigger] entry_fits(
                        self.blocks@[i],
                        position,
                        turn,
                    ),
                placed@.len() == drawn(draws@, i as int).len(),
                forall|k: int|
                    0 <= k < placed@.len() ==> #[trigger] is_placed_as(
                        self.blocks@,
                        drawn(draws@, i as int),
                        k,
                        position,
                        turn,
                        modes@,
                        placed@[k],
                    ),
            decreases self.blocks@.len() - i,
        {
            let entry = self.blocks[i];
            if draws[i] {
                assert(entry_fits(self.blocks@[i as int], position, turn));
                let offset = turn.rotate_block_pos(Vec3 { x: entry.x, y: entry.y, z: entry.z });
                let turned = turn.compose(entry.rotation);
                let mode = modes[entry.block.numeric_id()];
                let block = PlacedBlock {
                    position: position + offset,
                    block: BlockEntry {
                        block: entry.block,
                        color: entry.color,
                        rotation: mode.get_nearest_valid(turned),
                    },
                    entry: i,
                };
                assert(turned.orientation() == turn.orientation().compose_spec(
                    entry.rotation.orientation(),
                ));
                assert(is_placed(entry, i as int, position, turn, mode, block));
                let ghost before = placed@;
                placed.push(block);
                proof {
                    let list = drawn(draws@, i as int);
                    let grown = drawn(draws@, i + 1);
                    assert(grown =~= list.push(i as int));
                    assert forall|k: int| 0 <= k < placed@.len() implies #[trigger] is_placed_as(
                        self.blocks@,
                        grown,
                        k,
                        position,
                        turn,
                        modes@,
                        placed@[k],
                    ) by {
                        if k < before.len() {
                            assert(is_placed_as(
                                self.blocks@,
                                list,
                                k,
                                position,
                                turn,
                                modes@,
                                before[k],
                            ));
                        }
                    }
                }
            }
            i += 1;
        }
        proof {
            assert forall|k: int, other: BlockRotation|
                0 <= k < placed@.len() && other.front() == rotation.face_spec() && other.up()
                    == Face::Up implies #[trigger] is_placed_as(
                self.blocks@,
                drawn(draws@, draws@.len() as int),
                k,
                position,
                other,
                modes@,
                placed@[k],
            ) by {
                crate::rotation::law_rotation_unique(other, turn);
            }
        }
        placed
    }
}

/// The entries that are drawn stand in order, and all of them and no others are there.
pub proof fn law_drawn(draws: Seq<bool>, n: int, i: int)
    requires
        0 <= n <= draws.len(),
    ensures
        drawn(draws, n).contains(i) <==> 0 <= i < n && draws[i],
        forall|a: int, b: int|
            0 <= a < b < drawn(draws, n).len() ==> #[trigger] drawn(draws, n)[a] < #[trigger] drawn(
                draws,
                n,
            )[b],
        forall|a: int| 0 <= a < drawn(draws, n).len() ==> #[trigger] drawn(draws, n)[a] < n,
    decreases n,
{
    if n > 0 {
        law_drawn(draws, n - 1, i);
        let before = drawn(draws, n - 1);
        if draws[n - 1] {
            let all = before.push(n - 1);
            assert(all[before.len() as int] == n - 1);
            if before.contains(i) {
                let k = before.index_of(i);
                assert(all[k] == i);
            }
            if all.contains(i) && i != n - 1 {
                let k = choose|k: int| 0 <= k < all.len() && all[k] == i;
                assert(before[k] == i);
            }
        }
    }
}

/// A building is placed as it is built: the blocks of two entries lie as far apart as the entries,
/// turned, and every block keeps its kind and its color.
pub proof fn law_building_keeps_its_shape(
    a: PrefabEntry,
    b: PrefabEntry,
    i: int,
    j: int,
    position: BlockPos,
    rotation: BlockRotation,
    mode: BlockRotationMode,
    first: PlacedBlock,
    second: PlacedBlock,
)
    requires
        is_placed(a, i, position, rotation, mode, first),
        is_placed(b, j, position, rotation, mode, second),
    ensures
        first.block.block == a.block && first.block.color == a.color && first.entry == i,
        ({
            let o = rotation.orientation();
            let (p, q) = (o.rotated(a.position()), o.rotated(b.position()));
            &&& second.position.x - first.position.x == q.0 - p.0
            &&& second.position.y - first.position.y == q.1 - p.1
            &&& second.position.z - first.position.z == q.2 - p.2
        }),
        a.x == 0 && a.y == 0 && a.z == 0 ==> first.position == position,
{
    if a.x == 0 && a.y == 0 && a.z == 0 {
        assert(forall|k: int| #[trigger] (k * 0) == 0) by (nonlinear_arith);
        assert(rotation.orientation().rotated(a.position()) == (0int, 0int, 0int)) by {
            let o = rotation.orientation();
            let (r, u, f) = (o.right.offset(), o.up.offset(), o.forward.offset());
            assert(r.x * 0 == 0 && u.x * 0 == 0 && (-f.x) * 0 == 0);
            assert(r.y * 0 == 0 && u.y * 0 == 0 && (-f.y) * 0 == 0);
            assert(r.z * 0 == 0 && u.z * 0 == 0 && (-f.z) * 0 == 0);
        }
    }
}

} // verus!
