//! The six faces of a block.

use crate::coord::{BlockPos, ChunkPos, Vec3};
use vstd::prelude::*;

verus! {

#[derive(Debug, Clone, Copy, PartialEq, Eq, Hash, Structural)]
pub enum Face {
    Front,
    Back,
    Up,
    Down,
    Left,
    Right,
}

#[derive(Copy, Clone, Debug, Eq, PartialEq, Hash, Structural)]
pub enum Axis {
    X,
    Y,
    Z,
}

/// A face that looks along the ground.
#[derive(Debug, Clone, Copy, PartialEq, Eq, Hash, Structural)]
pub enum HorizontalFace {
    Front,
    Back,
    Left,
    Right,
}

/// The cross product of two vectors.
pub open spec fn cross_product(a: BlockPos, b: BlockPos) -> (int, int, int) {
    (a.y * b.z - a.z * b.y, a.z * b.x - a.x * b.z, a.x * b.y - a.y * b.x)
}

impl Face {
    /// The step from a block to its neighbour behind this face.
    pub open spec fn offset(self) -> BlockPos {
        match self {
            Face::Front => Vec3 { x: 0, y: 0, z: (-1) as i32 },
            Face::Back => Vec3 { x: 0, y: 0, z: 1 },
            Face::Left => Vec3 { x: (-1) as i32, y: 0, z: 0 },
            Face::Right => Vec3 { x: 1, y: 0, z: 0 },
            Face::Up => Vec3 { x: 0, y: 1, z: 0 },
            Face::Down => Vec3 { x: 0, y: (-1) as i32, z: 0 },
        }
    }

    /// The axis that the face is perpendicular to.
    pub open spec fn axis(self) -> Axis {
        match self {
            Face::Front | Face::Back => Axis::Z,
            Face::Up | Face::Down => Axis::Y,
            Face::Left | Face::Right => Axis::X,
        }
    }

    /// Whether the face looks towards the low end of its axis.
    pub open spec fn looks_down_axis(self) -> bool {
        match self {
            Face::Front | Face::Down | Face::Left => true,
            Face::Back | Face::Up | Face::Right => false,
        }
    }

    pub open spec fn opposite_spec(self) -> Face {
        match self {
            Face::Up => Face::Down,
            Face::Down => Face::Up,
            Face::Front => Face::Back,
            Face::Back => Face::Front,
            Face::Left => Face::Right,
            Face::Right => Face::Left,
        }
    }

    /// The face of `axis` that looks towards its low end if `low`, else towards its high end.
    pub open spec fn of_axis(axis: Axis, low: bool) -> Face {
        match (axis, low) {
            (Axis::X, true) => Face::Left,
            (Axis::X, false) => Face::Right,
            (Axis::Y, true) => Face::Down,
            (Axis::Y, false) => Face::Up,
            (Axis::Z, true) => Face::Front,
            (Axis::Z, false) => Face::Back,
        }
    }

    /// The axis that is neither `a` nor `b`.
    pub open spec fn third_axis(a: Axis, b: Axis) -> Axis {
        if a != Axis::X && b != Axis::X {
            Axis::X
        } else if a != Axis::Y && b != Axis::Y {
            Axis::Y
        } else {
            Axis::Z
        }
    }

    /// The face that completes this one and `other`, on another axis, to a right-handed system.
    pub open spec fn cross_spec(self, other: Face) -> Face {
        let (a, b) = (self.axis(), other.axis());
        let cyclic = (a == Axis::X && b == Axis::Y) || (a == Axis::Y && b == Axis::Z) || (a
            == Axis::Z && b == Axis::X);
        let flips = self.looks_down_axis() != other.looks_down_axis();
        Face::of_axis(Face::third_axis(a, b), cyclic == flips)
    }

    /// Every face once, in the order of the faces' indices.
    pub fn all() -> (r: [Face; 6])
        ensures
            r@ == Face::all_spec(),
    {
        let r = [Face::Front, Face::Back, Face::Up, Face::Down, Face::Left, Face::Right];
        assert(r@ =~= Face::all_spec());
        r
    }

    pub open spec fn all_spec() -> Seq<Face> {
        seq![Face::Front, Face::Back, Face::Up, Face::Down, Face::Left, Face::Right]
    }

    /// Every face that looks along the ground, once.
    pub fn horizontal() -> (r: [Face; 4])
        ensures
            r@ == seq![Face::Front, Face::Back, Face::Left, Face::Right],
    {
        let r = [Face::Front, Face::Back, Face::Left, Face::Right];
        assert(r@ =~= seq![Face::Front, Face::Back, Face::Left, Face::Right]);
        r
    }

    pub fn get_block_offset(&self) -> (r: BlockPos)
        ensures
            r == self.offset(),
    {
        match self {
            Face::Front => Vec3 { x: 0, y: 0, z: -1 },
            Face::Back => Vec3 { x: 0, y: 0, z: 1 },
            Face::Left => Vec3 { x: -1, y: 0, z: 0 },
            Face::Right => Vec3 { x: 1, y: 0, z: 0 },
            Face::Up => Vec3 { x: 0, y: 1, z: 0 },
            Face::Down => Vec3 { x: 0, y: -1, z: 0 },
        }
    }

    pub fn get_chunk_offset(&self) -> (r: ChunkPos)
        ensures
            r.x == self.offset().x,
            r.y == self.offset().y,
            r.z == self.offset().z,
    {
        let block_offset = self.get_block_offset();
        Vec3 { x: block_offset.x as i16, y: block_offset.y as i16, z: block_offset.z as i16 }
    }

    pub fn opposite(&self) -> (r: Face)
        ensures
            r == self.opposite_spec(),
    {
        match self {
            Face::Up => Face::Down,
            Face::Down => Face::Up,
            Face::Front => Face::Back,
            Face::Back => Face::Front,
            Face::Left => Face::Right,
            Face::Right => Face::Left,
        }
    }

    /// The face's axis, and whether the face looks towards the axis' low end.
    pub fn axis_direction(self) -> (r: (Axis, bool))
        ensures
            r == (self.axis(), self.looks_down_axis()),
    {
        match self {
            Face::Front => (Axis::Z, true),
            Face::Back => (Axis::Z, false),
            Face::Up => (Axis::Y, false),
            Face::Down => (Axis::Y, true),
            Face::Left => (Axis::X, true),
            Face::Right => (Axis::X, false),
        }
    }

    /// The face whose offset is the cross product of the offsets of two faces on different axes.
    pub fn cross(self, other: Face) -> (r: Face)
        requires
            self.axis() != other.axis(),
        ensures
            r == self.cross_spec(other),
    {
        let (a_axis, a_dir) = self.axis_direction();
        let (b_axis, b_dir) = other.axis_direction();
        let (axis, dir) = match (a_axis, b_axis) {
            (Axis::X, Axis::Y) => (Axis::Z, false),
            (Axis::Y, Axis::Z) => (Axis::X, false),
            (Axis::Z, Axis::X) => (Axis::Y, false),
            (Axis::Y, Axis::X) => (Axis::Z, true),
            (Axis::Z, Axis::Y) => (Axis::X, true),
            _ => (Axis::Y, true),
        };
        let dir = dir ^ a_dir ^ b_dir;
        let all = Face::all();
        let ghost wanted = Face::of_axis(axis, dir);
        proof {
            lemma_all_holds(wanted);
        }
        let mut i: usize = 0;
        while i < 6
            invariant
                i <= 6,
                all@ == Face::all_spec(),
                wanted == Face::of_axis(axis, dir),
                wanted == self.cross_spec(other),
                exists|j: int| i <= j < 6 && #[trigger] Face::all_spec()[j] == wanted,
            decreases 6 - i,
        {
            let face = all[i];
            let (f_axis, f_dir) = face.axis_direction();
            if f_axis == axis && f_dir == dir {
                return face;
            }
            i += 1;
        }
        self
    }
}

proof fn lemma_all_holds(face: Face)
    ensures
        exists|j: int| 0 <= j < 6 && #[trigger] Face::all_spec()[j] == face,
{
    let s = Face::all_spec();
    assert(s[0] == Face::Front && s[1] == Face::Back && s[2] == Face::Up && s[3] == Face::Down
        && s[4] == Face::Left && s[5] == Face::Right);
}

/// `all` holds every face, and none twice.
pub proof fn law_all_faces(face: Face)
    ensures
        Face::all_spec().contains(face),
        Face::all_spec().no_duplicates(),
{
    lemma_all_holds(face);
}

/// Turning a face round twice gives it back, and a face and its opposite step in opposite
/// directions.
pub proof fn law_opposite(face: Face)
    ensures
        face.opposite_spec().opposite_spec() == face,
        face.opposite_spec() != face,
        face.opposite_spec().axis() == face.axis(),
        face.opposite_spec().offset().x == -face.offset().x,
        face.opposite_spec().offset().y == -face.offset().y,
        face.opposite_spec().offset().z == -face.offset().z,
{
}

/// A face is fixed by its axis and its direction.
pub proof fn law_axis_direction(face: Face)
    ensures
        Face::of_axis(face.axis(), face.looks_down_axis()) == face,
{
}

/// The front looks to lower z, the left to lower x and the lower face to lower y; their opposites look
/// to the other end. A step to a face goes one along its axis, towards the end that the face looks to.
pub proof fn law_directions(face: Face)
    ensures
        Face::Front.offset().z == -1,
        Face::Left.offset().x == -1,
        Face::Down.offset().y == -1,
        face.axis() == Axis::X <==> face.offset().x != 0,
        face.axis() == Axis::Y <==> face.offset().y != 0,
        face.axis() == Axis::Z <==> face.offset().z != 0,
        face.offset().x + face.offset().y + face.offset().z == if face.looks_down_axis() {
            -1int
        } else {
            1
        },
{
}

/// A face that looks along the ground is the face of that name.
pub proof fn law_horizontal_faces(face: HorizontalFace)
    ensures
        face.face_spec().offset().y == 0,
        HorizontalFace::Front.face_spec() == Face::Front,
        HorizontalFace::Back.face_spec() == Face::Back,
        HorizontalFace::Left.face_spec() == Face::Left,
        HorizontalFace::Right.face_spec() == Face::Right,
{
}

/// A map holds at each face the value that belongs to it.
pub proof fn law_face_map<T>(map: FaceMap<T>)
    ensures
        map.at(Face::Front) == map.front,
        map.at(Face::Back) == map.back,
        map.at(Face::Left) == map.left,
        map.at(Face::Right) == map.right,
        map.at(Face::Up) == map.up,
        map.at(Face::Down) == map.down,
{
}

/// The product of two signs.
pub proof fn lemma_unit_product(u: int, v: int)
    requires
        -1 <= u <= 1,
    ensures
        u * v == if u == 0 {
            0
        } else if u == 1 {
            v
        } else {
            -v
        },
{
    assert(u == 0 ==> u * v == 0) by (nonlinear_arith);
    assert(u == 1 ==> u * v == v) by (nonlinear_arith);
    assert(u == -1 ==> u * v == -v) by (nonlinear_arith);
}

/// The offset of `a.cross(b)` is the cross product of the offsets of `a` and `b`, and swapping
/// the two turns the result round.
pub proof fn law_cross(a: Face, b: Face)
    requires
        a.axis() != b.axis(),
    ensures
        ({
            let o = a.cross_spec(b).offset();
            (o.x as int, o.y as int, o.z as int) == cross_product(a.offset(), b.offset())
        }),
        b.cross_spec(a) == a.cross_spec(b).opposite_spec(),
        a.cross_spec(b).axis() != a.axis(),
        a.cross_spec(b).axis() != b.axis(),
{
    let (p, q) = (a.offset(), b.offset());
    lemma_unit_product(p.y as int, q.z as int);
    lemma_unit_product(p.z as int, q.y as int);
    lemma_unit_product(p.z as int, q.x as int);
    lemma_unit_product(p.x as int, q.z as int);
    lemma_unit_product(p.x as int, q.y as int);
    lemma_unit_product(p.y as int, q.x as int);
}

impl HorizontalFace {
    pub open spec fn face_spec(self) -> Face {
        match self {
            HorizontalFace::Front => Face::Front,
            HorizontalFace::Back => Face::Back,
            HorizontalFace::Left => Face::Left,
            HorizontalFace::Right => Face::Right,
        }
    }

    pub fn face(self) -> (r: Face)
        ensures
            r == self.face_spec(),
    {
        match self {
            HorizontalFace::Front => Face::Front,
            HorizontalFace::Back => Face::Back,
            HorizontalFace::Left => Face::Left,
            HorizontalFace::Right => Face::Right,
        }
    }
}

/// One value for each face.
#[derive(Clone, Debug)]
pub struct FaceMap<T> {
    pub front: T,
    pub back: T,
    pub left: T,
    pub right: T,
    pub up: T,
    pub down: T,
}

impl<T> FaceMap<T> {
    /// The value that belongs to `face`.
    pub open spec fn at(self, face: Face) -> T {
        match face {
            Face::Front => self.front,
            Face::Back => self.back,
            Face::Left => self.left,
            Face::Right => self.right,
            Face::Up => self.up,
            Face::Down => self.down,
        }
    }

    /// The map whose value at each face is what `initializer` returns for it.
    pub fn init(mut initializer: impl FnMut(Face) -> T) -> (r: FaceMap<T>)
        requires
            forall|face: Face| call_requires(initializer, (face,)),
        ensures
            forall|face: Face| call_ensures(initializer, (face,), #[trigger] r.at(face)),
    {
        FaceMap {
            front: initializer(Face::Front),
            back: initializer(Face::Back),
            left: initializer(Face::Left),
            right: initializer(Face::Right),
            up: initializer(Face::Up),
            down: initializer(Face::Down),
        }
    }

    pub fn by_face(&self, face: Face) -> (r: &T)
        ensures
            *r == self.at(face),
    {
        match face {
            Face::Front => &self.front,
            Face::Back => &self.back,
            Face::Left => &self.left,
            Face::Right => &self.right,
            Face::Up => &self.up,
            Face::Down => &self.down,
        }
    }

    /// The place of the value that belongs to `face`: what is written there changes this value
    /// and no other.
    pub fn by_face_mut(&mut self, face: Face) -> (r: &mut T)
        ensures
            *r == old(self).at(face),
            forall|other: Face| #[trigger]
                final(self).at(other) == if other == face {
                    *final(r)
                } else {
                    old(self).at(other)
                },
    {
        match face {
            Face::Front => &mut self.front,
            Face::Back => &mut self.back,
            Face::Left => &mut self.left,
            Face::Right => &mut self.right,
            Face::Up => &mut self.up,
            Face::Down => &mut self.down,
        }
    }

    /// The map that holds at each face what `mapper` returns for this map's value there.
    pub fn map<'a, U>(&'a self, mut mapper: impl FnMut(&'a T) -> U) -> (r: FaceMap<U>)
        requires
            forall|face: Face| call_requires(mapper, (&#[trigger] self.at(face),)),
        ensures
            forall|face: Face|
                call_ensures(mapper, (&self.at(face),), #[trigger] r.at(face)),
    {
        FaceMap {
            front: mapper(self.by_face(Face::Front)),
            back: mapper(self.by_face(Face::Back)),
            left: mapper(self.by_face(Face::Left)),
            right: mapper(self.by_face(Face::Right)),
            up: mapper(self.by_face(Face::Up)),
            down: mapper(self.by_face(Face::Down)),
        }
    }
}

} // verus!
