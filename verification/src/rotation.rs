//! The rotations of a block.

use crate::aabb::{law_holds_spans, AABB};
use crate::coord::{BlockPos, Vec3};
use crate::face::{Face, HorizontalFace};
use crate::orientation::{
    law_apply_bijective, law_apply_cross, law_compose_applies, law_compose_associative,
    law_compose_wf, lemma_rotated, Orientation,
};
use vstd::prelude::*;

verus! {

/// The rotations of a block, each named by where its front and its upper face point to.
#[derive(Copy, Clone, PartialEq, Eq, Hash, Debug, Structural)]
pub enum BlockRotation {
    FrontUp,
    FrontDown,
    FrontRight,
    FrontLeft,
    BackUp,
    BackDown,
    BackRight,
    BackLeft,
    UpFront,
    UpBack,
    UpRight,
    UpLeft,
    DownFront,
    DownBack,
    DownRight,
    DownLeft,
    RightFront,
    RightBack,
    RightUp,
    RightDown,
    LeftFront,
    LeftBack,
    LeftUp,
    LeftDown,
}

impl BlockRotation {
    /// Where the front face points to.
    pub open spec fn front(self) -> Face {
        match self {
            BlockRotation::FrontUp => Face::Front,
            BlockRotation::FrontDown => Face::Front,
            BlockRotation::FrontRight => Face::Front,
            BlockRotation::FrontLeft => Face::Front,
            BlockRotation::BackUp => Face::Back,
            BlockRotation::BackDown => Face::Back,
            BlockRotation::BackRight => Face::Back,
            BlockRotation::BackLeft => Face::Back,
            BlockRotation::UpFront => Face::Up,
            BlockRotation::UpBack => Face::Up,
            BlockRotation::UpRight => Face::Up,
            BlockRotation::UpLeft => Face::Up,
            BlockRotation::DownFront => Face::Down,
            BlockRotation::DownBack => Face::Down,
            BlockRotation::DownRight => Face::Down,
            BlockRotation::DownLeft => Face::Down,
            BlockRotation::RightFront => Face::Right,
            BlockRotation::RightBack => Face::Right,
            BlockRotation::RightUp => Face::Right,
            BlockRotation::RightDown => Face::Right,
            BlockRotation::LeftFront => Face::Left,
            BlockRotation::LeftBack => Face::Left,
            BlockRotation::LeftUp => Face::Left,
            BlockRotation::LeftDown => Face::Left,
        }
    }

    /// Where the upper face points to.
    pub open spec fn up(self) -> Face {
        match self {
            BlockRotation::FrontUp => Face::Up,
            BlockRotation::FrontDown => Face::Down,
            BlockRotation::FrontRight => Face::Right,
            BlockRotation::FrontLeft => Face::Left,
            BlockRotation::BackUp => Face::Up,
            BlockRotation::BackDown => Face::Down,
            BlockRotation::BackRight => Face::Right,
            BlockRotation::BackLeft => Face::Left,
            BlockRotation::UpFront => Face::Front,
            BlockRotation::UpBack => Face::Back,
            BlockRotation::UpRight => Face::Right,
            BlockRotation::UpLeft => Face::Left,
            BlockRotation::DownFront => Face::Front,
            BlockRotation::DownBack => Face::Back,
            BlockRotation::DownRight => Face::Right,
            BlockRotation::DownLeft => Face::Left,
            BlockRotation::RightFront => Face::Front,
            BlockRotation::RightBack => Face::Back,
            BlockRotation::RightUp => Face::Up,
            BlockRotation::RightDown => Face::Down,
            BlockRotation::LeftFront => Face::Front,
            BlockRotation::LeftBack => Face::Back,
            BlockRotation::LeftUp => Face::Up,
            BlockRotation::LeftDown => Face::Down,
        }
    }

    /// The place of the rotation in the order of the variants.
    pub open spec fn number(self) -> int {
        match self {
            BlockRotation::FrontUp => 0,
            BlockRotation::FrontDown => 1,
            BlockRotation::FrontRight => 2,
            BlockRotation::FrontLeft => 3,
            BlockRotation::BackUp => 4,
            BlockRotation::BackDown => 5,
            BlockRotation::BackRight => 6,
            BlockRotation::BackLeft => 7,
            BlockRotation::UpFront => 8,
            BlockRotation::UpBack => 9,
            BlockRotation::UpRight => 10,
            BlockRotation::UpLeft => 11,
            BlockRotation::DownFront => 12,
            BlockRotation::DownBack => 13,
            BlockRotation::DownRight => 14,
            BlockRotation::DownLeft => 15,
            BlockRotation::RightFront => 16,
            BlockRotation::RightBack => 17,
            BlockRotation::RightUp => 18,
            BlockRotation::RightDown => 19,
            BlockRotation::LeftFront => 20,
            BlockRotation::LeftBack => 21,
            BlockRotation::LeftUp => 22,
            BlockRotation::LeftDown => 23,
        }
    }

    /// The rotation as an orientation.
    pub open spec fn orientation(self) -> Orientation {
        Orientation {
            right: self.front().cross_spec(self.up()),
            up: self.up(),
            forward: self.front(),
        }
    }

    pub fn front_face(self) -> (r: Face)
        ensures
            r == self.front(),
    {
        match self {
            BlockRotation::FrontUp => Face::Front,
            BlockRotation::FrontDown => Face::Front,
            BlockRotation::FrontRight => Face::Front,
            BlockRotation::FrontLeft => Face::Front,
            BlockRotation::BackUp => Face::Back,
            BlockRotation::BackDown => Face::Back,
            BlockRotation::BackRight => Face::Back,
            BlockRotation::BackLeft => Face::Back,
            BlockRotation::UpFront => Face::Up,
            BlockRotation::UpBack => Face::Up,
            BlockRotation::UpRight => Face::Up,
            BlockRotation::UpLeft => Face::Up,
            BlockRotation::DownFront => Face::Down,
            BlockRotation::DownBack => Face::Down,
            BlockRotation::DownRight => Face::Down,
            BlockRotation::DownLeft => Face::Down,
            BlockRotation::RightFront => Face::Right,
            BlockRotation::RightBack => Face::Right,
            BlockRotation::RightUp => Face::Right,
            BlockRotation::RightDown => Face::Right,
            BlockRotation::LeftFront => Face::Left,
            BlockRotation::LeftBack => Face::Left,
            BlockRotation::LeftUp => Face::Left,
            BlockRotation::LeftDown => Face::Left,
        }
    }

    pub fn up_face(self) -> (r: Face)
        ensures
            r == self.up(),
    {
        match self {
            BlockRotation::FrontUp => Face::Up,
            BlockRotation::FrontDown => Face::Down,
            BlockRotation::FrontRight => Face::Right,
            BlockRotation::FrontLeft => Face::Left,
            BlockRotation::BackUp => Face::Up,
            BlockRotation::BackDown => Face::Down,
            BlockRotation::BackRight => Face::Right,
            BlockRotation::BackLeft => Face::Left,
            BlockRotation::UpFront => Face::Front,
            BlockRotation::UpBack => Face::Back,
            BlockRotation::UpRight => Face::Right,
            BlockRotation::UpLeft => Face::Left,
            BlockRotation::DownFront => Face::Front,
            BlockRotation::DownBack => Face::Back,
            BlockRotation::DownRight => Face::Right,
            BlockRotation::DownLeft => Face::Left,
            BlockRotation::RightFront => Face::Front,
            BlockRotation::RightBack => Face::Back,
            BlockRotation::RightUp => Face::Up,
            BlockRotation::RightDown => Face::Down,
            BlockRotation::LeftFront => Face::Front,
            BlockRotation::LeftBack => Face::Back,
            BlockRotation::LeftUp => Face::Up,
            BlockRotation::LeftDown => Face::Down,
        }
    }

    /// The rotation at place `index` in the order of the variants.
    pub(crate) fn from_index(index: u8) -> (r: BlockRotation)
        requires
            index < 24,
        ensures
            r.number() == index,
    {
        match index {
            0 => BlockRotation::FrontUp,
            1 => BlockRotation::FrontDown,
            2 => BlockRotation::FrontRight,
            3 => BlockRotation::FrontLeft,
            4 => BlockRotation::BackUp,
            5 => BlockRotation::BackDown,
            6 => BlockRotation::BackRight,
            7 => BlockRotation::BackLeft,
            8 => BlockRotation::UpFront,
            9 => BlockRotation::UpBack,
            10 => BlockRotation::UpRight,
            11 => BlockRotation::UpLeft,
            12 => BlockRotation::DownFront,
            13 => BlockRotation::DownBack,
            14 => BlockRotation::DownRight,
            15 => BlockRotation::DownLeft,
            16 => BlockRotation::RightFront,
            17 => BlockRotation::RightBack,
            18 => BlockRotation::RightUp,
            19 => BlockRotation::RightDown,
            20 => BlockRotation::LeftFront,
            21 => BlockRotation::LeftBack,
            22 => BlockRotation::LeftUp,
            _ => BlockRotation::LeftDown,
        }
    }

    /// The rotation's place in the order of the variants.
    pub(crate) fn to_index(self) -> (r: u8)
        ensures
            r == self.number(),
    {
        match self {
            BlockRotation::FrontUp => 0,
            BlockRotation::FrontDown => 1,
            BlockRotation::FrontRight => 2,
            BlockRotation::FrontLeft => 3,
            BlockRotation::BackUp => 4,
            BlockRotation::BackDown => 5,
            BlockRotation::BackRight => 6,
            BlockRotation::BackLeft => 7,
            BlockRotation::UpFront => 8,
            BlockRotation::UpBack => 9,
            BlockRotation::UpRight => 10,
            BlockRotation::UpLeft => 11,
            BlockRotation::DownFront => 12,
            BlockRotation::DownBack => 13,
            BlockRotation::DownRight => 14,
            BlockRotation::DownLeft => 15,
            BlockRotation::RightFront => 16,
            BlockRotation::RightBack => 17,
            BlockRotation::RightUp => 18,
            BlockRotation::RightDown => 19,
            BlockRotation::LeftFront => 20,
            BlockRotation::LeftBack => 21,
            BlockRotation::LeftUp => 22,
            BlockRotation::LeftDown => 23,
        }
    }

    /// The rotation that the orientation stands for.
    fn from_orientation(orientation: Orientation) -> (r: BlockRotation)
        requires
            orientation.wf(),
        ensures
            r.orientation() == orientation,
    {
        let ghost wanted = rotation_of(orientation.forward, orientation.up);
        proof {
            lemma_rotation_of(orientation.forward, orientation.up);
        }
        let mut i: u8 = 0;
        while i < 24
            invariant
                i <= 24,
                orientation.wf(),
                wanted.orientation() == orientation,
                i <= wanted.number() < 24,
            decreases 24 - i,
        {
            let rotation = BlockRotation::from_index(i);
            if Orientation::from_block_rotation(rotation) == orientation {
                return rotation;
            }
            proof {
                lemma_number_unique(rotation, wanted);
            }
            i += 1;
        }
        BlockRotation::FrontUp
    }

    /// The rotation with these front and upper faces, unless they lie on one axis.
    pub fn new(front: Face, up: Face) -> (r: Option<BlockRotation>)
        ensures
            r is Some <==> front.axis() != up.axis(),
            r matches Some(rotation) ==> rotation.front() == front && rotation.up() == up,
    {
        match Orientation::from_front_up(front, up) {
            Some(orientation) => Some(BlockRotation::from_orientation(orientation)),
            None => None,
        }
    }

    /// The rotation whose front points to `face`: upright, or with its top towards the back where
    /// it looks up and towards the front where it looks down.
    pub fn looking_to(face: Face) -> (r: BlockRotation)
        ensures
            r.front() == face,
            r.up() == match face {
                Face::Up => Face::Back,
                Face::Down => Face::Front,
                _ => Face::Up,
            },
    {
        let up = match face {
            Face::Up => Face::Back,
            Face::Down => Face::Front,
            _ => Face::Up,
        };
        BlockRotation::new(face, up).unwrap()
    }

    /// The rotations whose fronts point to each of the faces, in the order of the faces.
    pub fn default_connection_rotations_all() -> (r: Vec<BlockRotation>)
        ensures
            r@.len() == 6,
            forall|i: int|
                0 <= i < 6 ==> {
                    &&& (#[trigger] r@[i]).front() == Face::all_spec()[i]
                    &&& r@[i].up() == match Face::all_spec()[i] {
                        Face::Up => Face::Back,
                        Face::Down => Face::Front,
                        _ => Face::Up,
                    }
                },
    {
        let faces = Face::all();
        let mut r: Vec<BlockRotation> = Vec::new();
        let mut i: usize = 0;
        while i < 6
            invariant
                i <= 6,
                faces@ == Face::all_spec(),
                r@.len() == i,
                forall|j: int|
                    0 <= j < i ==> {
                        &&& (#[trigger] r@[j]).front() == Face::all_spec()[j]
                        &&& r@[j].up() == match Face::all_spec()[j] {
                            Face::Up => Face::Back,
                            Face::Down => Face::Front,
                            _ => Face::Up,
                        }
                    },
            decreases 6 - i,
        {
            r.push(BlockRotation::looking_to(faces[i]));
            i += 1;
        }
        r
    }

    /// The upright rotation whose front points to `face`.
    pub fn looking_to_horizontal(face: HorizontalFace) -> (r: BlockRotation)
        ensures
            r.front() == face.face_spec(),
            r.up() == Face::Up,
    {
        BlockRotation::new(face.face(), Face::Up).unwrap()
    }

    /// The rotation that turns by `other` and then by this one.
    pub fn compose(self, other: BlockRotation) -> (r: BlockRotation)
        ensures
            r.orientation() == self.orientation().compose_spec(other.orientation()),
    {
        let first = Orientation::from_block_rotation(self);
        let second = Orientation::from_block_rotation(other);
        proof {
            law_orientation_wf(self);
            law_orientation_wf(other);
            law_compose_wf(first, second);
        }
        BlockRotation::from_orientation(first.compose(second))
    }

    /// Where the right face points to.
    pub fn right_face(self) -> (r: Face)
        ensures
            r == self.front().cross_spec(self.up()),
            r == self.orientation().right,
    {
        proof {
            law_orientation_wf(self);
        }
        self.front_face().cross(self.up_face())
    }

    /// The box turned round the origin.
    pub fn rotate_block_aabb(self, aabb: AABB<i32>) -> (r: AABB<i32>)
        requires
            self.orientation().can_rotate(aabb.min),
            self.orientation().can_rotate(aabb.max),
        ensures
            r == self.rotated_box(aabb),
    {
        let orientation = Orientation::from_block_rotation(self);
        AABB::new(orientation.rotate_block_pos(aabb.min), orientation.rotate_block_pos(aabb.max))
    }

    /// The point turned round the origin.
    pub open spec fn rotated(self, v: BlockPos) -> BlockPos {
        let (x, y, z) = self.orientation().rotated(v);
        Vec3 { x: x as i32, y: y as i32, z: z as i32 }
    }

    /// The box spanned by the turned corners.
    pub open spec fn rotated_box(self, aabb: AABB<i32>) -> AABB<i32> {
        AABB::spanned(self.rotated(aabb.min), self.rotated(aabb.max))
    }

    /// Where `face` of an unturned block points to.
    pub fn rotate_face(self, face: Face) -> (r: Face)
        ensures
            r == self.orientation().apply_spec(face),
    {
        Orientation::from_block_rotation(self).apply(face)
    }

    /// The face of an unturned block that points to `face` on the turned one.
    pub fn inverse_rotate_face(self, face: Face) -> (r: Face)
        ensures
            self.orientation().apply_spec(r) == face,
    {
        proof {
            law_orientation_wf(self);
            law_apply_bijective(self.orientation(), face, face);
        }
        Orientation::from_block_rotation(self).inverse_apply(face)
    }

    /// The point turned round the origin.
    pub fn rotate_block_pos(self, v: BlockPos) -> (r: BlockPos)
        requires
            self.orientation().can_rotate(v),
        ensures
            r == self.rotated(v),
            (r.x as int, r.y as int, r.z as int) == self.orientation().rotated(v),
    {
        Orientation::from_block_rotation(self).rotate_block_pos(v)
    }
}

impl Default for BlockRotation {
    fn default() -> (r: BlockRotation)
        ensures
            r == BlockRotation::FrontUp,
    {
        BlockRotation::FrontUp
    }
}

impl Orientation {
    /// The orientation that the rotation stands for.
    pub fn from_block_rotation(block_rotation: BlockRotation) -> (r: Orientation)
        ensures
            r == block_rotation.orientation(),
            r.wf(),
    {
        proof {
            law_orientation_wf(block_rotation);
        }
        Orientation::from_front_up(block_rotation.front_face(), block_rotation.up_face()).unwrap()
    }
}

/// The rotation with these faces.
spec fn rotation_of(front: Face, up: Face) -> BlockRotation {
    choose|rotation: BlockRotation| #[trigger] rotation.front() == front && rotation.up() == up
}

proof fn lemma_rotation_of(front: Face, up: Face)
    requires
        front.axis() != up.axis(),
    ensures
        rotation_of(front, up).front() == front,
        rotation_of(front, up).up() == up,
        0 <= rotation_of(front, up).number() < 24,
{
    let witness = match (front, up) {
        (Face::Front, Face::Up) => BlockRotation::FrontUp,
        (Face::Front, Face::Down) => BlockRotation::FrontDown,
        (Face::Front, Face::Right) => BlockRotation::FrontRight,
        (Face::Front, Face::Left) => BlockRotation::FrontLeft,
        (Face::Back, Face::Up) => BlockRotation::BackUp,
        (Face::Back, Face::Down) => BlockRotation::BackDown,
        (Face::Back, Face::Right) => BlockRotation::BackRight,
        (Face::Back, Face::Left) => BlockRotation::BackLeft,
        (Face::Up, Face::Front) => BlockRotation::UpFront,
        (Face::Up, Face::Back) => BlockRotation::UpBack,
        (Face::Up, Face::Right) => BlockRotation::UpRight,
        (Face::Up, Face::Left) => BlockRotation::UpLeft,
        (Face::Down, Face::Front) => BlockRotation::DownFront,
        (Face::Down, Face::Back) => BlockRotation::DownBack,
        (Face::Down, Face::Right) => BlockRotation::DownRight,
        (Face::Down, Face::Left) => BlockRotation::DownLeft,
        (Face::Right, Face::Front) => BlockRotation::RightFront,
        (Face::Right, Face::Back) => BlockRotation::RightBack,
        (Face::Right, Face::Up) => BlockRotation::RightUp,
        (Face::Right, Face::Down) => BlockRotation::RightDown,
        (Face::Left, Face::Front) => BlockRotation::LeftFront,
        (Face::Left, Face::Back) => BlockRotation::LeftBack,
        (Face::Left, Face::Up) => BlockRotation::LeftUp,
        _ => BlockRotation::LeftDown,
    };
    assert(witness.front() == front && witness.up() == up);
}

pub proof fn lemma_number_unique(a: BlockRotation, b: BlockRotation)
    ensures
        a.number() == b.number() ==> a == b,
{
}

/// Every rotation is a proper turn.
pub proof fn law_orientation_wf(rotation: BlockRotation)
    ensures
        rotation.orientation().wf(),
{
}

/// Turning by a rotation brings the front to its front face and the top to its upper face, and keeps the
/// block right-handed.
pub proof fn law_rotation_turns(rotation: BlockRotation)
    ensures
        rotation.orientation().apply_spec(Face::Front) == rotation.front(),
        rotation.orientation().apply_spec(Face::Up) == rotation.up(),
        rotation.orientation().apply_spec(Face::Right) == rotation.front().cross_spec(rotation.up()),
        rotation.front().axis() != rotation.up().axis(),
{
}

/// A rotation is fixed by its front and its upper face.
pub proof fn law_rotation_unique(a: BlockRotation, b: BlockRotation)
    requires
        a.front() == b.front(),
        a.up() == b.up(),
    ensures
        a == b,
{
}

/// The rotations form a group under composition: it is associative, `FrontUp` is neutral, and each
/// rotation is undone by another.
pub proof fn law_rotation_group(a: BlockRotation, b: BlockRotation, c: BlockRotation)
    ensures
        a.orientation().compose_spec(b.orientation()).compose_spec(c.orientation())
            == a.orientation().compose_spec(b.orientation().compose_spec(c.orientation())),
        BlockRotation::FrontUp.orientation() == Orientation::identity_spec(),
        exists|undo: BlockRotation|
            (#[trigger] undo.orientation()).compose_spec(a.orientation())
                == Orientation::identity_spec(),
{
    law_compose_associative(a.orientation(), b.orientation(), c.orientation());
    let o = a.orientation();
    law_orientation_wf(a);
    law_apply_bijective(o, Face::Front, Face::Front);
    law_apply_bijective(o, Face::Up, Face::Up);
    law_apply_bijective(o, Face::Right, Face::Right);
    let front = choose|face: Face| #[trigger] o.apply_spec(face) == Face::Front;
    let up = choose|face: Face| #[trigger] o.apply_spec(face) == Face::Up;
    assert(front.axis() != up.axis()) by {
        if front.axis() == up.axis() {
            assert(front == up || front == up.opposite_spec());
        }
    }
    lemma_rotation_of(front, up);
    let back = rotation_of(front, up);
    law_orientation_wf(back);
    law_apply_cross(o, front, up);
    assert(o.compose_spec(back.orientation()) == Orientation::identity_spec());
    lemma_right_inverse_is_left(o, back.orientation());
}

proof fn lemma_right_inverse_is_left(a: Orientation, b: Orientation)
    requires
        a.wf(),
        b.wf(),
        a.compose_spec(b) == Orientation::identity_spec(),
    ensures
        b.compose_spec(a) == Orientation::identity_spec(),
{
    let ba = b.compose_spec(a);
    assert forall|face: Face| #[trigger] ba.apply_spec(face) == face by {
        law_compose_applies(b, a, face);
        law_compose_applies(a, b, a.apply_spec(face));
        law_apply_bijective(a, b.apply_spec(a.apply_spec(face)), face);
    }
    assert(ba.apply_spec(Face::Right) == Face::Right);
    assert(ba.apply_spec(Face::Up) == Face::Up);
    assert(ba.apply_spec(Face::Front) == Face::Front);
}

/// Turning by one rotation after another is turning by a rotation.
pub proof fn law_rotations_compose(a: BlockRotation, b: BlockRotation)
    ensures
        exists|r: BlockRotation| #[trigger]
            r.orientation() == a.orientation().compose_spec(b.orientation()),
{
    law_orientation_wf(a);
    law_orientation_wf(b);
    let o = a.orientation().compose_spec(b.orientation());
    law_compose_wf(a.orientation(), b.orientation());
    lemma_rotation_of(o.forward, o.up);
    assert(rotation_of(o.forward, o.up).orientation() == o);
}

/// Turning a face by a composed rotation is turning it by the second and then by the first.
pub proof fn law_rotate_composed_face(a: BlockRotation, b: BlockRotation, face: Face)
    ensures
        a.orientation().compose_spec(b.orientation()).apply_spec(face)
            == a.orientation().apply_spec(b.orientation().apply_spec(face)),
{
    law_compose_applies(a.orientation(), b.orientation(), face);
}

/// A turned box holds a turned point exactly where the box holds the point.
#[verifier::spinoff_prover]
#[verifier::rlimit(60)]
pub proof fn law_rotated_box_holds(rotation: BlockRotation, aabb: AABB<i32>, p: BlockPos)
    requires
        aabb.in_order(),
        rotation.orientation().can_rotate(aabb.min),
        rotation.orientation().can_rotate(aabb.max),
        rotation.orientation().can_rotate(p),
    ensures
        rotation.rotated_box(aabb).holds(rotation.rotated(p)) <==> aabb.holds(p),
{
    lemma_rotated(rotation.orientation(), aabb.min);
    lemma_rotated(rotation.orientation(), aabb.max);
    lemma_rotated(rotation.orientation(), p);
    law_holds_spans(aabb, p);
    law_holds_spans(rotation.rotated_box(aabb), rotation.rotated(p));
}

/// A rotation looks to the face that its name begins with, and what its name ends with is above.
pub proof fn law_rotation_names()
    ensures
        BlockRotation::FrontUp.front() is Front && BlockRotation::FrontUp.up() is Up,
        BlockRotation::FrontDown.front() is Front && BlockRotation::FrontDown.up() is Down,
        BlockRotation::FrontRight.front() is Front && BlockRotation::FrontRight.up() is Right,
        BlockRotation::FrontLeft.front() is Front && BlockRotation::FrontLeft.up() is Left,
        BlockRotation::BackUp.front() is Back && BlockRotation::BackUp.up() is Up,
        BlockRotation::BackDown.front() is Back && BlockRotation::BackDown.up() is Down,
        BlockRotation::BackRight.front() is Back && BlockRotation::BackRight.up() is Right,
        BlockRotation::BackLeft.front() is Back && BlockRotation::BackLeft.up() is Left,
        BlockRotation::UpFront.front() is Up && BlockRotation::UpFront.up() is Front,
        BlockRotation::UpBack.front() is Up && BlockRotation::UpBack.up() is Back,
        BlockRotation::UpRight.front() is Up && BlockRotation::UpRight.up() is Right,
        BlockRotation::UpLeft.front() is Up && BlockRotation::UpLeft.up() is Left,
        BlockRotation::DownFront.front() is Down && BlockRotation::DownFront.up() is Front,
        BlockRotation::DownBack.front() is Down && BlockRotation::DownBack.up() is Back,
        BlockRotation::DownRight.front() is Down && BlockRotation::DownRight.up() is Right,
        BlockRotation::DownLeft.front() is Down && BlockRotation::DownLeft.up() is Left,
        BlockRotation::RightFront.front() is Right && BlockRotation::RightFront.up() is Front,
        BlockRotation::RightBack.front() is Right && BlockRotation::RightBack.up() is Back,
        BlockRotation::RightUp.front() is Right && BlockRotation::RightUp.up() is Up,
        BlockRotation::RightDown.front() is Right && BlockRotation::RightDown.up() is Down,
        BlockRotation::LeftFront.front() is Left && BlockRotation::LeftFront.up() is Front,
        BlockRotation::LeftBack.front() is Left && BlockRotation::LeftBack.up() is Back,
        BlockRotation::LeftUp.front() is Left && BlockRotation::LeftUp.up() is Up,
        BlockRotation::LeftDown.front() is Left && BlockRotation::LeftDown.up() is Down,
{
}

/// The rotations are numbered without a gap, each number once.
pub proof fn law_rotation_numbers(a: BlockRotation, b: BlockRotation)
    ensures
        0 <= a.number() < 24,
        a.number() == b.number() ==> a == b,
        BlockRotation::FrontUp.number() == 0,
        a.front() == b.front() ==> -3 <= a.number() - b.number() <= 3,
        a.number() / 4 == b.number() / 4 <==> a.front() == b.front(),
{
}

} // verus!
