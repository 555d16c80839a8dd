//! The walk of a ray through the blocks, and the faces that it meets. Distances are given by numbers
//! that are ordered as the distances are.

use crate::coord::{BlockPos, Vec3};
use crate::face::{Axis, Face};
use vstd::prelude::*;

verus! {

/// The next border of each axis that a ray crosses.
#[derive(Clone, Copy)]
pub struct NextBorders {
    pub x: i64,
    pub y: i64,
    pub z: i64,
}

impl NextBorders {
    /// The axis whose border is crossed first; of borders at one distance that of the last axis.
    pub open spec fn axis_spec(self) -> Axis {
        if self.x < self.y && self.x < self.z {
            Axis::X
        } else if self.y < self.z {
            Axis::Y
        } else {
            Axis::Z
        }
    }

    /// The axis whose border is crossed first.
    pub fn first_axis(self) -> (r: Axis)
        ensures
            r == self.axis_spec(),
    {
        if self.x < self.y && self.x < self.z {
            Axis::X
        } else if self.y < self.z {
            Axis::Y
        } else {
            Axis::Z
        }
    }
}

/// No border is nearer than the one that is crossed.
pub proof fn law_nearest_border_first(borders: NextBorders)
    ensures
        match borders.axis_spec() {
            Axis::X => borders.x < borders.y && borders.x < borders.z,
            Axis::Y => borders.y < borders.z && borders.y <= borders.x,
            Axis::Z => borders.z <= borders.x && borders.z <= borders.y,
        },
{
}

/// A block that a ray passes, and the face through which it came in.
#[derive(Clone, Copy)]
pub struct RayBlock {
    pub block: BlockPos,
    pub face: Face,
}

impl RayBlock {
    /// The block in which a ray begins; it counts as entered from the front.
    pub fn start(block: BlockPos) -> (r: RayBlock)
        ensures
            r == (RayBlock { block, face: Face::Front }),
    {
        RayBlock { block, face: Face::Front }
    }

    /// Whether the neighbor along an axis has coordinates.
    pub open spec fn can_step(self, axis: Axis, forward: bool) -> bool {
        let c = match axis {
            Axis::X => self.block.x,
            Axis::Y => self.block.y,
            Axis::Z => self.block.z,
        };
        if forward {
            c < i32::MAX
        } else {
            c > i32::MIN
        }
    }

    /// The block beyond the border of `axis`, on the upper side if the ray goes `forward` on it,
    /// and the face through which the ray comes into it.
    pub open spec fn stepped(self, axis: Axis, forward: bool) -> RayBlock {
        let face = Face::of_axis(axis, forward);
        RayBlock {
            block: Vec3 {
                x: (self.block.x - face.offset().x) as i32,
                y: (self.block.y - face.offset().y) as i32,
                z: (self.block.z - face.offset().z) as i32,
            },
            face,
        }
    }

    /// The block beyond the border of `axis`, on the upper side if the ray goes `forward` on it.
    pub fn step(self, axis: Axis, forward: bool) -> (r: RayBlock)
        requires
            self.can_step(axis, forward),
        ensures
            r == self.stepped(axis, forward),
            r.face == Face::of_axis(axis, forward),
            r.block.x + r.face.offset().x == self.block.x,
            r.block.y + r.face.offset().y == self.block.y,
            r.block.z + r.face.offset().z == self.block.z,
    {
        let by: i32 = if forward {
            1
        } else {
            -1
        };
        match axis {
            Axis::X => RayBlock {
                block: Vec3 { x: self.block.x + by, y: self.block.y, z: self.block.z },
                face: if forward {
                    Face::Left
                } else {
                    Face::Right
                },
            },
            Axis::Y => RayBlock {
                block: Vec3 { x: self.block.x, y: self.block.y + by, z: self.block.z },
                face: if forward {
                    Face::Down
                } else {
                    Face::Up
                },
            },
            Axis::Z => RayBlock {
                block: Vec3 { x: self.block.x, y: self.block.y, z: self.block.z + by },
                face: if forward {
                    Face::Front
                } else {
                    Face::Back
                },
            },
        }
    }
}

/// The directions of a ray: whether it goes up each axis.
#[derive(Clone, Copy)]
pub struct RayDirection {
    pub x: bool,
    pub y: bool,
    pub z: bool,
}

impl RayDirection {
    /// Whether the ray goes up an axis.
    pub open spec fn on(self, axis: Axis) -> bool {
        match axis {
            Axis::X => self.x,
            Axis::Y => self.y,
            Axis::Z => self.z,
        }
    }

    /// Whether the ray goes up an axis.
    pub fn is_forward(self, axis: Axis) -> (r: bool)
        ensures
            r == self.on(axis),
    {
        match axis {
            Axis::X => self.x,
            Axis::Y => self.y,
            Axis::Z => self.z,
        }
    }
}

/// The passage of a ray through a block: the place where it comes in, and the axis whose border it
/// crosses next.
#[derive(Clone, Copy)]
pub struct Passage<P> {
    pub position: P,
    pub axis: Axis,
}

/// The block that a ray passes as number `n`, and the face through which it comes in.
pub open spec fn passed<P>(
    start: BlockPos,
    direction: RayDirection,
    passages: Seq<Passage<P>>,
    n: int,
) -> RayBlock
    decreases n,
{
    if n <= 0 {
        RayBlock { block: start, face: Face::Front }
    } else {
        let before = passed(start, direction, passages, n - 1);
        let axis = passages[n - 1].axis;
        before.stepped(axis, direction.on(axis))
    }
}

/// Whether all blocks that a ray passes have coordinates.
pub open spec fn can_walk<P>(
    start: BlockPos,
    direction: RayDirection,
    passages: Seq<Passage<P>>,
) -> bool {
    forall|n: int|
        0 <= n < passages.len() - 1 ==> (#[trigger] passed(start, direction, passages, n)).can_step(
            passages[n].axis,
            direction.on(passages[n].axis),
        )
}

/// Whether `f` gives `found` for the block that a ray passes as number `n`.
pub open spec fn gives<T, P, F: FnMut(BlockPos, P, Face) -> Option<T>>(
    f: F,
    start: BlockPos,
    direction: RayDirection,
    passages: Seq<Passage<P>>,
    n: int,
    found: Option<T>,
) -> bool {
    let at = passed(start, direction, passages, n);
    call_ensures(f, (at.block, passages[n].position, at.face), found)
}

/// The first thing that `f` gives for a block that a ray passes, from the block `start` on. It
/// gives nothing for the blocks before that one, and is asked for none behind it.
pub fn block_raycast<T, P: Copy, F: FnMut(BlockPos, P, Face) -> Option<T>>(
    start: BlockPos,
    direction: RayDirection,
    passages: &Vec<Passage<P>>,
    f: F,
) -> (r: Option<T>)
    requires
        can_walk(start, direction, passages@),
        forall|block: BlockPos, position: P, face: Face| #[trigger]
            call_requires(f, (block, position, face)),
    ensures
        match r {
            Some(_) => exists|n: int|
                {
                    &&& 0 <= n < passages@.len()
                    &&& #[trigger] gives(f, start, direction, passages@, n, r)
                    &&& forall|i: int|
                        0 <= i < n ==> #[trigger] gives(f, start, direction, passages@, i, None)
                },
            None => forall|i: int|
                0 <= i < passages@.len() ==> #[trigger] gives(
                    f,
                    start,
                    direction,
                    passages@,
                    i,
                    None,
                ),
        },
{
    let mut asked = f;
    let mut at = RayBlock::start(start);
    let mut n: usize = 0;
    while n < passages.len()
        invariant
            n <= passages@.len(),
            asked == f,
            can_walk(start, direction, passages@),
            forall|block: BlockPos, position: P, face: Face| #[trigger]
                call_requires(f, (block, position, face)),
            n < passages@.len() ==> at == passed(start, direction, passages@, n as int),
            forall|i: int|
                0 <= i < n ==> #[trigger] gives(f, start, direction, passages@, i, None),
        decreases passages@.len() - n,
    {
        let passage = passages[n];
        let found = asked(at.block, passage.position, at.face);
        assert(gives(f, start, direction, passages@, n as int, found));
        if found.is_some() {
            return found;
        }
        if n + 1 < passages.len() {
            at = at.step(passage.axis, direction.is_forward(passage.axis));
        }
        n += 1;
    }
    None
}

/// A ray begins in its first block, which counts as entered from the front. Every further block
/// that it passes touches the one before with the face through which the ray comes in.
pub proof fn law_ray_passes_neighbors<P>(
    start: BlockPos,
    direction: RayDirection,
    passages: Seq<Passage<P>>,
    n: int,
)
    requires
        can_walk(start, direction, passages),
        0 < n < passages.len(),
    ensures
        passed(start, direction, passages, 0) == (RayBlock { block: start, face: Face::Front }),
        ({
            let at = passed(start, direction, passages, n);
            let before = passed(start, direction, passages, n - 1);
            &&& at.block.x + at.face.offset().x == before.block.x
            &&& at.block.y + at.face.offset().y == before.block.y
            &&& at.block.z + at.face.offset().z == before.block.z
        }),
{
    assert(passed(start, direction, passages, n - 1).can_step(
        passages[n - 1].axis,
        direction.on(passages[n - 1].axis),
    ));
}

/// Where a ray enters and leaves the space between two opposite faces of a box.
#[derive(Clone, Copy)]
pub struct Slab {
    pub axis: Axis,
    pub enter: i64,
    pub exit: i64,
    /// Whether the ray goes up the axis.
    pub forward: bool,
}

impl Slab {
    /// The face through which the ray comes in.
    pub open spec fn face(self) -> Face {
        Face::of_axis(self.axis, self.forward)
    }

    /// The face through which the ray goes out.
    pub open spec fn far_face(self) -> Face {
        Face::of_axis(self.axis, !self.forward)
    }

    fn enter_face(self) -> (r: Face)
        ensures
            r == self.face(),
    {
        match (self.axis, self.forward) {
            (Axis::X, true) => Face::Left,
            (Axis::X, false) => Face::Right,
            (Axis::Y, true) => Face::Down,
            (Axis::Y, false) => Face::Up,
            (Axis::Z, true) => Face::Front,
            (Axis::Z, false) => Face::Back,
        }
    }

    fn exit_face(self) -> (r: Face)
        ensures
            r == self.far_face(),
    {
        Slab { forward: !self.forward, ..self }.enter_face()
    }
}

/// The greatest of the entries, at least `start`.
pub open spec fn last_enter(start: i64, slabs: Seq<Slab>) -> i64
    decreases slabs.len(),
{
    if slabs.len() == 0 {
        start
    } else {
        let before = last_enter(start, slabs.drop_last());
        if slabs.last().enter > before {
            slabs.last().enter
        } else {
            before
        }
    }
}

/// The least of the exits, at most `end`.
pub open spec fn first_exit(end: i64, slabs: Seq<Slab>) -> i64
    decreases slabs.len(),
{
    if slabs.len() == 0 {
        end
    } else {
        let before = first_exit(end, slabs.drop_last());
        if slabs.last().exit < before {
            slabs.last().exit
        } else {
            before
        }
    }
}

/// Whether a ray from `start` to `end` comes into a box at a distance, through a face: all slabs
/// have been entered there, the last of them behind the start, and none has been left.
pub open spec fn comes_in(start: i64, end: i64, slabs: Seq<Slab>, distance: i64, face: Face) -> bool {
    &&& distance == last_enter(start, slabs)
    &&& start < distance <= first_exit(end, slabs)
    &&& exists|i: int|
        {
            &&& 0 <= i < slabs.len()
            &&& (#[trigger] slabs[i]).enter == distance
            &&& slabs[i].face() == face
            &&& forall|j: int| 0 <= j < i ==> (#[trigger] slabs[j]).enter < distance
        }
}

/// Whether a ray that begins at `start` inside a box goes out of it at a distance before `end`,
/// through a face: no slab is entered behind the start, and this is the first that is left.
pub open spec fn goes_out(start: i64, end: i64, slabs: Seq<Slab>, distance: i64, face: Face) -> bool {
    &&& last_enter(start, slabs) == start
    &&& distance == first_exit(end, slabs)
    &&& start <= distance < end
    &&& exists|i: int|
        {
            &&& 0 <= i < slabs.len()
            &&& (#[trigger] slabs[i]).exit == distance
            &&& slabs[i].far_face() == face
            &&& forall|j: int| 0 <= j < i ==> (#[trigger] slabs[j]).exit > distance
        }
}

/// Where a ray that begins at `start` and ends at `end` first meets the faces of a box: the
/// distance and the face. A ray from outside meets the box where it comes in, a ray from inside
/// where it goes out. The slabs are those of the three axes.
pub fn aabb_raycast(start: i64, end: i64, slabs: &[Slab; 3]) -> (r: Option<(i64, Face)>)
    ensures
        match r {
            Some((distance, face)) => end != start && (comes_in(start, end, slabs@, distance, face)
                || goes_out(start, end, slabs@, distance, face)),
            None => end == start || last_enter(start, slabs@) > first_exit(end, slabs@) || (
            last_enter(start, slabs@) == start && first_exit(end, slabs@) == end),
        },
{
    if end == start {
        return None;
    }
    let mut t_min: i64 = start;
    let mut t_max: i64 = end;
    let mut enter_face: Option<Face> = None;
    let mut exit_face: Option<Face> = None;
    let ghost mut entered: int = 0;
    let ghost mut left: int = 0;
    let mut i: usize = 0;
    assert(slabs@.take(0) =~= Seq::<Slab>::empty());
    assert(slabs@.take(3) =~= slabs@);
    while i < 3
        invariant
            i <= 3,
            end != start,
            slabs@.len() == 3,
            slabs@.take(3) == slabs@,
            t_min == last_enter(start, slabs@.take(i as int)),
            t_max == first_exit(end, slabs@.take(i as int)),
            t_min >= start,
            t_max <= end,
            i > 0 ==> t_min <= t_max,
            (enter_face is Some) == (t_min > start),
            (exit_face is Some) == (t_max < end),
            forall|j: int| 0 <= j < i ==> (#[trigger] slabs@[j]).enter <= t_min,
            forall|j: int| 0 <= j < i ==> (#[trigger] slabs@[j]).exit >= t_max,
            enter_face matches Some(face) ==> {
                &&& 0 <= entered < i
                &&& slabs@[entered].enter == t_min
                &&& slabs@[entered].face() == face
                &&& forall|j: int| 0 <= j < entered ==> (#[trigger] slabs@[j]).enter < t_min
            },
            exit_face matches Some(face) ==> {
                &&& 0 <= left < i
                &&& slabs@[left].exit == t_max
                &&& slabs@[left].far_face() == face
                &&& forall|j: int| 0 <= j < left ==> (#[trigger] slabs@[j]).exit > t_max
            },
        decreases 3 - i,
    {
        let slab = slabs[i];
        assert(slabs@.take(i + 1).drop_last() =~= slabs@.take(i as int));
        if slab.enter > t_min {
            t_min = slab.enter;
            enter_face = Some(slab.enter_face());
            proof {
                entered = i as int;
            }
        }
        if slab.exit < t_max {
            t_max = slab.exit;
            exit_face = Some(slab.exit_face());
            proof {
                left = i as int;
            }
        }
        i += 1;
        if t_min > t_max {
            proof {
                lemma_slabs_narrow(start, end, slabs@, i as int, 3);
            }
            return None;
        }
    }
    match enter_face {
        Some(face) => {
            assert(slabs@[entered].face() == face);
            Some((t_min, face))
        },
        None => match exit_face {
            Some(face) => {
                assert(slabs@[left].far_face() == face);
                Some((t_max, face))
            },
            None => None,
        },
    }
}

proof fn lemma_slabs_narrow(start: i64, end: i64, slabs: Seq<Slab>, n: int, m: int)
    requires
        0 <= n <= m <= slabs.len(),
    ensures
        last_enter(start, slabs.take(n)) <= last_enter(start, slabs.take(m)),
        first_exit(end, slabs.take(n)) >= first_exit(end, slabs.take(m)),
    decreases m - n,
{
    if n < m {
        lemma_slabs_narrow(start, end, slabs, n, m - 1);
        assert(slabs.take(m).drop_last() =~= slabs.take(m - 1));
    }
}

/// What a ray of the player meets.
#[derive(Clone, Copy)]
pub enum RayCastResult {
    Empty,
    Block(BlockPos, Face),
    Entity(u128),
    Plant(BlockPos, usize),
}

/// Something that a ray meets, and its distance.
#[derive(Clone, Copy)]
pub struct RayHit {
    pub distance: i64,
    pub result: RayCastResult,
}

/// The first of the hits `0..n` that no other is nearer than.
pub open spec fn nearest(hits: Seq<RayHit>, n: int) -> Option<int>
    decreases n,
{
    if n <= 0 {
        None
    } else {
        match nearest(hits, n - 1) {
            None => Some(n - 1),
            Some(i) => if hits[n - 1].distance < hits[i].distance {
                Some(n - 1)
            } else {
                Some(i)
            },
        }
    }
}

/// What a ray meets first, given everything that it meets: first the block, then the entities and
/// the plants, in the order in which they were found. At one distance the first of them counts.
pub fn pick_nearest(hits: &Vec<RayHit>) -> (r: RayCastResult)
    ensures
        r == match nearest(hits@, hits@.len() as int) {
            Some(i) => hits@[i].result,
            None => RayCastResult::Empty,
        },
{
    let mut best: Option<RayHit> = None;
    let mut i: usize = 0;
    while i < hits.len()
        invariant
            i <= hits@.len(),
            match nearest(hits@, i as int) {
                Some(at) => 0 <= at < i && best == Some(hits@[at]),
                None => best is None && i == 0,
            },
        decreases hits@.len() - i,
    {
        let hit = hits[i];
        match best {
            None => {
                best = Some(hit);
            },
            Some(previous) => {
                if hit.distance < previous.distance {
                    best = Some(hit);
                }
            },
        }
        i += 1;
    }
    match best {
        Some(hit) => hit.result,
        None => RayCastResult::Empty,
    }
}

/// Nothing that a ray meets is nearer than what it meets first.
pub proof fn law_nearest_is_least(hits: Seq<RayHit>, n: int, i: int)
    requires
        0 <= i < n <= hits.len(),
    ensures
        nearest(hits, n) matches Some(at) && 0 <= at < n && hits[at].distance <= hits[i].distance,
    decreases n,
{
    if i < n - 1 {
        law_nearest_is_least(hits, n - 1, i);
    } else if n > 1 {
        law_nearest_is_least(hits, n - 1, 0);
    }
}

/// A ray comes into a block through the side that it meets first: where it goes up an axis, the
/// coordinate grows by one, and the others stay.
pub proof fn law_step(at: RayBlock, axis: Axis, forward: bool)
    requires
        at.can_step(axis, forward),
    ensures
        ({
            let to = at.stepped(axis, forward);
            let way = if forward {
                1
            } else {
                -1int
            };
            &&& axis is X ==> to.block.x == at.block.x + way && to.block.y == at.block.y && to.block.z
                == at.block.z && to.face == if forward {
                Face::Left
            } else {
                Face::Right
            }
            &&& axis is Y ==> to.block.y == at.block.y + way && to.block.x == at.block.x && to.block.z
                == at.block.z && to.face == if forward {
                Face::Down
            } else {
                Face::Up
            }
            &&& axis is Z ==> to.block.z == at.block.z + way && to.block.x == at.block.x && to.block.y
                == at.block.y && to.face == if forward {
                Face::Front
            } else {
                Face::Back
            }
        }),
{
}

/// A ray goes up an axis or not as its direction says of that axis.
pub proof fn law_direction(direction: RayDirection)
    ensures
        direction.on(Axis::X) == direction.x,
        direction.on(Axis::Y) == direction.y,
        direction.on(Axis::Z) == direction.z,
{
}

/// Every block that a ray passes touches the one before, through the face by which it comes in.
pub proof fn law_passed_blocks_touch<P>(
    start: BlockPos,
    direction: RayDirection,
    passages: Seq<Passage<P>>,
    n: int,
)
    requires
        0 <= n < passages.len() - 1,
        can_walk(start, direction, passages),
    ensures
        passed(start, direction, passages, 0).block == start,
        ({
            let at = passed(start, direction, passages, n).block;
            let to = passed(start, direction, passages, n + 1);
            &&& to.block.x + to.face.offset().x == at.x
            &&& to.block.y + to.face.offset().y == at.y
            &&& to.block.z + to.face.offset().z == at.z
        }),
{
    let at = passed(start, direction, passages, n);
    let axis = passages[n].axis;
    assert(at.can_step(axis, direction.on(axis)));
    assert(passed(start, direction, passages, n + 1) == at.stepped(axis, direction.on(axis)));
    law_step(at, axis, direction.on(axis));
}

/// The border that is crossed first lies no farther than the others.
pub proof fn law_first_border(borders: NextBorders)
    ensures
        borders.axis_spec() is X ==> borders.x < borders.y && borders.x < borders.z,
        borders.axis_spec() is Y ==> borders.y <= borders.x && borders.y < borders.z,
        borders.axis_spec() is Z ==> borders.z <= borders.x && borders.z <= borders.y,
{
}

/// A ray comes into a slab through one side and leaves it through the opposite one; where it goes up
/// the axis, it comes in through the lower side.
pub proof fn law_slab_sides(slab: Slab)
    ensures
        slab.far_face() == slab.face().opposite_spec(),
        slab.axis is X ==> (slab.face() == Face::Left <==> slab.forward),
        slab.axis is Y ==> (slab.face() == Face::Down <==> slab.forward),
        slab.axis is Z ==> (slab.face() == Face::Front <==> slab.forward),
        slab.axis is X ==> slab.face() is Left || slab.face() is Right,
        slab.axis is Y ==> slab.face() is Down || slab.face() is Up,
        slab.axis is Z ==> slab.face() is Front || slab.face() is Back,
{
}

/// The last entry lies behind no slab's entry and the start, and is one of them; the first exit lies
/// before no slab's exit and the end, and is one of them.
pub proof fn law_entries_and_exits(start: i64, end: i64, slabs: Seq<Slab>)
    ensures
        last_enter(start, slabs) >= start,
        forall|i: int| 0 <= i < slabs.len() ==> (#[trigger] slabs[i]).enter <= last_enter(start, slabs),
        last_enter(start, slabs) == start || exists|i: int|
            0 <= i < slabs.len() && (#[trigger] slabs[i]).enter == last_enter(start, slabs),
        first_exit(end, slabs) <= end,
        forall|i: int| 0 <= i < slabs.len() ==> (#[trigger] slabs[i]).exit >= first_exit(end, slabs),
        first_exit(end, slabs) == end || exists|i: int|
            0 <= i < slabs.len() && (#[trigger] slabs[i]).exit == first_exit(end, slabs),
    decreases slabs.len(),
{
    if slabs.len() > 0 {
        let before = slabs.drop_last();
        law_entries_and_exits(start, end, before);
        assert forall|i: int| 0 <= i < slabs.len() implies (#[trigger] slabs[i]).enter <= last_enter(
            start,
            slabs,
        ) && slabs[i].exit >= first_exit(end, slabs) by {
            if i < slabs.len() - 1 {
                assert(before[i] == slabs[i]);
            }
        }
        if last_enter(start, slabs) != start {
            if slabs.last().enter > last_enter(start, before) {
                assert(slabs[slabs.len() - 1].enter == last_enter(start, slabs));
            } else {
                let i = choose|i: int|
                    0 <= i < before.len() && (#[trigger] before[i]).enter == last_enter(start, before);
                assert(slabs[i].enter == last_enter(start, slabs));
            }
        }
        if first_exit(end, slabs) != end {
            if slabs.last().exit < first_exit(end, before) {
                assert(slabs[slabs.len() - 1].exit == first_exit(end, slabs));
            } else {
                let i = choose|i: int|
                    0 <= i < before.len() && (#[trigger] before[i]).exit == first_exit(end, before);
                assert(slabs[i].exit == first_exit(end, slabs));
            }
        }
    }
}

/// Where a ray comes into a box, it lies within every slab.
pub proof fn law_in_every_slab(start: i64, end: i64, slabs: Seq<Slab>, distance: i64, face: Face)
    ensures
        comes_in(start, end, slabs, distance, face) ==> start < distance <= end && forall|i: int|
            0 <= i < slabs.len() ==> (#[trigger] slabs[i]).enter <= distance <= slabs[i].exit,
        goes_out(start, end, slabs, distance, face) ==> start <= distance < end && forall|i: int|
            0 <= i < slabs.len() ==> (#[trigger] slabs[i]).enter <= start && distance
                <= slabs[i].exit,
{
    law_entries_and_exits(start, end, slabs);
}

} // verus!
