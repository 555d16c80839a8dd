//! The corners of the faces of a block.

use crate::coord::{BlockPos, Vec3};
use crate::face::{cross_product, Face};
use crate::orientation::Orientation;
use crate::rotation::{law_orientation_wf, BlockRotation};
use vstd::prelude::*;

verus! {

/// A rectangle of a texture.
#[derive(Clone, Copy)]
pub struct TexCoords<F: Copy> {
    pub u1: F,
    pub v1: F,
    pub u2: F,
    pub v2: F,
}

impl<F: Copy> TexCoords<F> {
    /// The corner with number `id`: first the one at the upper left, then clockwise.
    pub open spec fn corner_spec(self, id: int) -> (F, F) {
        if id % 4 == 0 {
            (self.u1, self.v1)
        } else if id % 4 == 1 {
            (self.u2, self.v1)
        } else if id % 4 == 2 {
            (self.u2, self.v2)
        } else {
            (self.u1, self.v2)
        }
    }

    /// The corner with number `id` of a texture that is turned by `rotation` quarters.
    pub fn corner(self, id: u8, rotation: u8) -> (r: (F, F))
        requires
            id + rotation <= u8::MAX,
        ensures
            r == self.corner_spec(id + rotation),
    {
        match (id + rotation) % 4 {
            0 => (self.u1, self.v1),
            1 => (self.u2, self.v1),
            2 => (self.u2, self.v2),
            _ => (self.u1, self.v2),
        }
    }
}

/// A corner of a face of the unit cube.
pub open spec fn corner_at(x: int, y: int, z: int) -> BlockPos {
    Vec3 { x: x as i32, y: y as i32, z: z as i32 }
}

/// A corner of a face and its place on the texture.
pub type FaceVertex<F> = (BlockPos, (F, F));

impl Face {
    /// The corners of the face of the unit cube, clockwise as seen from outside, beginning at the
    /// upper left of its texture.
    pub open spec fn corners_spec(self) -> Seq<BlockPos> {
        match self {
            Face::Front => seq![
                corner_at(1, 1, 0),
                corner_at(0, 1, 0),
                corner_at(0, 0, 0),
                corner_at(1, 0, 0),
            ],
            Face::Back => seq![
                corner_at(0, 1, 1),
                corner_at(1, 1, 1),
                corner_at(1, 0, 1),
                corner_at(0, 0, 1),
            ],
            Face::Up => seq![
                corner_at(0, 1, 0),
                corner_at(1, 1, 0),
                corner_at(1, 1, 1),
                corner_at(0, 1, 1),
            ],
            Face::Down => seq![
                corner_at(1, 0, 0),
                corner_at(0, 0, 0),
                corner_at(0, 0, 1),
                corner_at(1, 0, 1),
            ],
            Face::Left => seq![
                corner_at(0, 1, 0),
                corner_at(0, 1, 1),
                corner_at(0, 0, 1),
                corner_at(0, 0, 0),
            ],
            Face::Right => seq![
                corner_at(1, 1, 1),
                corner_at(1, 1, 0),
                corner_at(1, 0, 0),
                corner_at(1, 0, 1),
            ],
        }
    }

    /// The corners of the face of the unit cube.
    pub fn corners(self) -> (r: [BlockPos; 4])
        ensures
            r@ == self.corners_spec(),
    {
        let r = match self {
            Face::Front => [
                Vec3 { x: 1, y: 1, z: 0 },
                Vec3 { x: 0, y: 1, z: 0 },
                Vec3 { x: 0, y: 0, z: 0 },
                Vec3 { x: 1, y: 0, z: 0 },
            ],
            Face::Back => [
                Vec3 { x: 0, y: 1, z: 1 },
                Vec3 { x: 1, y: 1, z: 1 },
                Vec3 { x: 1, y: 0, z: 1 },
                Vec3 { x: 0, y: 0, z: 1 },
            ],
            Face::Up => [
                Vec3 { x: 0, y: 1, z: 0 },
                Vec3 { x: 1, y: 1, z: 0 },
                Vec3 { x: 1, y: 1, z: 1 },
                Vec3 { x: 0, y: 1, z: 1 },
            ],
            Face::Down => [
                Vec3 { x: 1, y: 0, z: 0 },
                Vec3 { x: 0, y: 0, z: 0 },
                Vec3 { x: 0, y: 0, z: 1 },
                Vec3 { x: 1, y: 0, z: 1 },
            ],
            Face::Left => [
                Vec3 { x: 0, y: 1, z: 0 },
                Vec3 { x: 0, y: 1, z: 1 },
                Vec3 { x: 0, y: 0, z: 1 },
                Vec3 { x: 0, y: 0, z: 0 },
            ],
            Face::Right => [
                Vec3 { x: 1, y: 1, z: 1 },
                Vec3 { x: 1, y: 1, z: 0 },
                Vec3 { x: 1, y: 0, z: 0 },
                Vec3 { x: 1, y: 0, z: 1 },
            ],
        };
        assert(r@ =~= self.corners_spec());
        r
    }

    /// The vertex at corner `id` of a face whose texture is turned by `rotation` quarters.
    pub open spec fn vertex<F: Copy>(
        self,
        coords: TexCoords<F>,
        rotation: u8,
        id: int,
    ) -> FaceVertex<F> {
        (self.corners_spec()[id], coords.corner_spec(id + rotation))
    }

    /// The four vertices of the face, clockwise.
    pub fn get_vertices<F: Copy>(self, coords: TexCoords<F>, rotation: u8) -> (r: [FaceVertex<F>; 4])
        requires
            rotation <= 252,
        ensures
            r@ == Seq::new(4, |id: int| self.vertex(coords, rotation, id)),
    {
        let corners = self.corners();
        let r = [
            (corners[0], coords.corner(0, rotation)),
            (corners[1], coords.corner(1, rotation)),
            (corners[2], coords.corner(2, rotation)),
            (corners[3], coords.corner(3, rotation)),
        ];
        assert(r@ =~= Seq::new(4, |id: int| self.vertex(coords, rotation, id)));
        r
    }

    /// The vertices of the two triangles that make up the face, counterclockwise.
    pub fn add_vertices<F: Copy>(self, coords: TexCoords<F>, rotation: u8) -> (r: [FaceVertex<F>; 6])
        requires
            rotation <= 252,
        ensures
            r@ == crate::mesh::quad_around().map_values(
                |id: int| self.vertex(coords, rotation, id),
            ),
    {
        let corners = self.get_vertices(coords, rotation);
        let r = [corners[0], corners[3], corners[2], corners[2], corners[1], corners[0]];
        assert(r@ =~= crate::mesh::quad_around().map_values(
            |id: int| self.vertex(coords, rotation, id),
        ));
        r
    }
}

/// The difference of two corners.
pub open spec fn edge(from: BlockPos, to: BlockPos) -> BlockPos {
    corner_at(to.x - from.x, to.y - from.y, to.z - from.z)
}

/// Both triangles of a face look out of the block: the normal of each, counterclockwise, is the
/// face's direction.
pub proof fn law_faces_look_outside(face: Face)
    ensures
        ({
            let c = face.corners_spec();
            let outside = (face.offset().x as int, face.offset().y as int, face.offset().z as int);
            &&& cross_product(edge(c[0], c[3]), edge(c[0], c[2])) == outside
            &&& cross_product(edge(c[2], c[1]), edge(c[2], c[0])) == outside
        }),
{
    let c = face.corners_spec();
    lemma_cross_units(edge(c[0], c[3]), edge(c[0], c[2]));
    lemma_cross_units(edge(c[2], c[1]), edge(c[2], c[0]));
}

/// The products of the cross product of two vectors made of -1, 0 and 1.
proof fn lemma_cross_units(a: BlockPos, b: BlockPos)
    requires
        -1 <= a.x <= 1,
        -1 <= a.y <= 1,
        -1 <= a.z <= 1,
    ensures
        forall|u: int, v: int| #![trigger u * v]
            (u == a.x || u == a.y || u == a.z) && (v == b.x || v == b.y || v == b.z) ==> u * v
                == if u == 0 {
                0
            } else if u == 1 {
                v
            } else {
                -v
            },
{
    assert forall|u: int, v: int| #![trigger u * v]
        (u == a.x || u == a.y || u == a.z) && (v == b.x || v == b.y || v == b.z) implies u * v
        == if u == 0 {
        0
    } else if u == 1 {
        v
    } else {
        -v
    } by {
        crate::face::lemma_unit_product(u, v);
    }
}

/// Twice the vector from the middle of the unit cube to a corner.
pub open spec fn from_middle(corner: BlockPos) -> BlockPos {
    corner_at(2 * corner.x - 1, 2 * corner.y - 1, 2 * corner.z - 1)
}

/// A corner of the unit cube, turned round the middle of the cube.
#[verifier::opaque]
pub open spec fn turned_corner(rotation: BlockRotation, corner: BlockPos) -> BlockPos {
    let (x, y, z) = rotation.orientation().rotated(from_middle(corner));
    corner_at((x + 1) / 2, (y + 1) / 2, (z + 1) / 2)
}

/// Whether a corner of the unit cube lies on a face.
pub open spec fn on_face(corner: BlockPos, face: Face) -> bool {
    let v = from_middle(corner);
    v.x * face.offset().x + v.y * face.offset().y + v.z * face.offset().z == 1
}

/// The face of an unturned block that points to `world_face` on the turned one.
pub open spec fn local_face(rotation: BlockRotation, world_face: Face) -> Face {
    choose|face: Face| #[trigger] rotation.orientation().apply_spec(face) == world_face
}

/// The face of an unturned block that points to `world_face` on the turned one.
pub fn find_local_face(rotation: BlockRotation, world_face: Face) -> (r: Face)
    ensures
        r == local_face(rotation, world_face),
        rotation.orientation().apply_spec(r) == world_face,
{
    let r = rotation.inverse_rotate_face(world_face);
    proof {
        law_orientation_wf(rotation);
        let other = local_face(rotation, world_face);
        assert(rotation.orientation().apply_spec(r) == world_face);
        assert(rotation.orientation().apply_spec(other) == world_face);
        crate::orientation::law_apply_bijective(rotation.orientation(), r, other);
    }
    r
}

/// Where a corner of an unturned block comes to lie.
fn turn_corner(rotation: BlockRotation, corner: BlockPos) -> (r: BlockPos)
    requires
        0 <= corner.x <= 1,
        0 <= corner.y <= 1,
        0 <= corner.z <= 1,
    ensures
        r == turned_corner(rotation, corner),
{
    let doubled = Vec3 { x: 2 * corner.x - 1, y: 2 * corner.y - 1, z: 2 * corner.z - 1 };
    proof {
        reveal(turned_corner);
        law_orientation_wf(rotation);
        assert(doubled == from_middle(corner));
        lemma_turned_range(rotation.orientation(), doubled);
    }
    let turned = rotation.rotate_block_pos(doubled);
    Vec3 { x: (turned.x + 1) / 2, y: (turned.y + 1) / 2, z: (turned.z + 1) / 2 }
}

proof fn lemma_turned_range(orientation: Orientation, v: BlockPos)
    requires
        orientation.wf(),
        v.x == 1 || v.x == -1,
        v.y == 1 || v.y == -1,
        v.z == 1 || v.z == -1,
    ensures
        orientation.can_rotate(v),
        ({
            let (x, y, z) = orientation.rotated(v);
            &&& x == 1 || x == -1
            &&& y == 1 || y == -1
            &&& z == 1 || z == -1
        }),
{
    crate::orientation::law_can_rotate(orientation, v);
    crate::orientation::lemma_rotated(orientation, v);
}

/// The corners of the face of a turned block that points to `world_face`, in the order of the
/// unturned face, and that face.
pub fn get_block_rotation_face_vertices(rotation: BlockRotation, world_face: Face) -> (r: (
    [BlockPos; 4],
    Face,
))
    ensures
        r.1 == local_face(rotation, world_face),
        rotation.orientation().apply_spec(r.1) == world_face,
        r.0@ == r.1.corners_spec().map_values(|corner: BlockPos| turned_corner(rotation, corner)),
{
    let face = find_local_face(rotation, world_face);
    let corners = face.corners();
    let turned = [
        turn_corner(rotation, corners[0]),
        turn_corner(rotation, corners[1]),
        turn_corner(rotation, corners[2]),
        turn_corner(rotation, corners[3]),
    ];
    assert(turned@ =~= face.corners_spec().map_values(
        |corner: BlockPos| turned_corner(rotation, corner),
    ));
    (turned, face)
}

/// The part of a vector that points along a face.
spec fn along(x: int, y: int, z: int, face: Face) -> int {
    match face {
        Face::Front => -z,
        Face::Back => z,
        Face::Left => -x,
        Face::Right => x,
        Face::Up => y,
        Face::Down => -y,
    }
}

proof fn lemma_along(v: BlockPos, face: Face)
    ensures
        v.x * face.offset().x + v.y * face.offset().y + v.z * face.offset().z == along(
            v.x as int,
            v.y as int,
            v.z as int,
            face,
        ),
{
    let o = face.offset();
    crate::face::lemma_unit_product(o.x as int, v.x as int);
    crate::face::lemma_unit_product(o.y as int, v.y as int);
    crate::face::lemma_unit_product(o.z as int, v.z as int);
    assert(v.x * o.x == o.x * v.x && v.y * o.y == o.y * v.y && v.z * o.z == o.z * v.z)
        by (nonlinear_arith);
}

/// A turned vector points along a turned face as far as the vector along the face.
proof fn lemma_turned_along(o: Orientation, v: BlockPos, face: Face)
    requires
        o.wf(),
    ensures
        ({
            let (x, y, z) = o.rotated(v);
            along(x, y, z, o.apply_spec(face)) == along(v.x as int, v.y as int, v.z as int, face)
        }),
{
    crate::orientation::lemma_rotated(o, v);
}

proof fn lemma_corner_along(face: Face, corner: int)
    requires
        0 <= corner < 4,
    ensures
        ({
            let v = from_middle(face.corners_spec()[corner]);
            &&& along(v.x as int, v.y as int, v.z as int, face) == 1
            &&& v.x == 1 || v.x == -1
            &&& v.y == 1 || v.y == -1
            &&& v.z == 1 || v.z == -1
        }),
{
}

/// The corners of the face of a turned block that points to a side lie on that side.
pub proof fn law_turned_corner_on_face(rotation: BlockRotation, face: Face, corner: int)
    requires
        0 <= corner < 4,
    ensures
        on_face(face.corners_spec()[corner], face),
        on_face(
            turned_corner(rotation, face.corners_spec()[corner]),
            rotation.orientation().apply_spec(face),
        ),
{
    let c = face.corners_spec()[corner];
    let v = from_middle(c);
    law_orientation_wf(rotation);
    lemma_corner_along(face, corner);
    lemma_along(v, face);
    lemma_turned_along(rotation.orientation(), v, face);
    lemma_turned_range(rotation.orientation(), v);
    let t = from_middle(turned_corner(rotation, c));
    assert((t.x as int, t.y as int, t.z as int) == rotation.orientation().rotated(v)) by {
        reveal(turned_corner);
    }
    lemma_along(t, rotation.orientation().apply_spec(face));
}

/// The corners of a texture lie around it, from the upper left, and a turn by four quarters changes
/// nothing.
pub proof fn law_texture_corners<F: Copy>(coords: TexCoords<F>, id: int)
    ensures
        coords.corner_spec(0) == (coords.u1, coords.v1),
        coords.corner_spec(1) == (coords.u2, coords.v1),
        coords.corner_spec(2) == (coords.u2, coords.v2),
        coords.corner_spec(3) == (coords.u1, coords.v2),
        coords.corner_spec(id + 4) == coords.corner_spec(id),
{
}

/// The textures of the sides stand upright: the first two corners lie above the last two. Those of
/// the upper and the lower side begin at the front.
pub proof fn law_textures_stand_upright(face: Face)
    ensures
        ({
            let c = face.corners_spec();
            &&& c.len() == 4
            &&& forall|i: int| 0 <= i < 4 ==> on_face(#[trigger] c[i], face)
            &&& face is Front || face is Back || face is Left || face is Right ==> c[0].y == 1
                && c[1].y == 1 && c[2].y == 0 && c[3].y == 0
            &&& face is Up || face is Down ==> c[0].z == 0 && c[1].z == 0 && c[2].z == 1 && c[3].z
                == 1
        }),
{
    let c = face.corners_spec();
    assert forall|i: int| 0 <= i < 4 implies on_face(#[trigger] c[i], face) by {
        lemma_corner_along(face, i);
        lemma_along(from_middle(c[i]), face);
    }
}

/// A quarter turn of the texture moves every place of it on to the next corner.
pub proof fn law_texture_turns<F: Copy>(face: Face, coords: TexCoords<F>, rotation: u8, id: int)
    requires
        0 <= id < 3,
        rotation < 252,
    ensures
        face.vertex(coords, (rotation + 1) as u8, id).1 == face.vertex(coords, rotation, id + 1).1,
        face.vertex(coords, rotation, id).0 == face.corners_spec()[id],
        face.vertex(coords, 0, 0).1 == (coords.u1, coords.v1),
{
}

} // verus!
