//! The ways in which a block can be turned.

use crate::coord::{BlockPos, Vec3};
use crate::face::{lemma_unit_product, law_all_faces, Axis, Face};
use std::ops::Neg;
use vstd::prelude::*;

verus! {

/// Where the right, the upper and the front face of a block point to.
#[derive(Copy, Clone, Debug, Eq, PartialEq, Hash, Structural)]
pub struct Orientation {
    pub right: Face,
    pub up: Face,
    pub forward: Face,
}

impl Orientation {
    /// Whether the three faces belong to a block that was turned, not mirrored or distorted.
    pub open spec fn wf(self) -> bool {
        self.forward.axis() != self.up.axis() && self.right == self.forward.cross_spec(self.up)
    }

    pub open spec fn identity_spec() -> Orientation {
        Orientation { right: Face::Right, up: Face::Up, forward: Face::Front }
    }

    /// Where `face` of an unturned block points to.
    pub open spec fn apply_spec(self, face: Face) -> Face {
        match face {
            Face::Right => self.right,
            Face::Left => self.right.opposite_spec(),
            Face::Up => self.up,
            Face::Down => self.up.opposite_spec(),
            Face::Front => self.forward,
            Face::Back => self.forward.opposite_spec(),
        }
    }

    /// The orientation of a block that is turned by `other` and then by this one.
    pub open spec fn compose_spec(self, other: Orientation) -> Orientation {
        Orientation {
            right: self.apply_spec(other.right),
            up: self.apply_spec(other.up),
            forward: self.apply_spec(other.forward),
        }
    }

    /// The vector from the origin to where the turned point `v` lies.
    pub open spec fn rotated(self, v: BlockPos) -> (int, int, int) {
        let (r, u, f) = (self.right.offset(), self.up.offset(), self.forward.offset());
        (
            r.x * v.x + u.x * v.y + (-f.x) * v.z,
            r.y * v.x + u.y * v.y + (-f.y) * v.z,
            r.z * v.x + u.z * v.y + (-f.z) * v.z,
        )
    }

    /// Whether turning `v` needs no number outside thirty-two bits: no negated coordinate and no
    /// partial sum.
    pub open spec fn can_rotate(self, v: BlockPos) -> bool {
        let (r, u, f) = (self.right.offset(), self.up.offset(), self.forward.offset());
        &&& step_fits(r.x as int, u.x as int, -f.x, v)
        &&& step_fits(r.y as int, u.y as int, -f.y, v)
        &&& step_fits(r.z as int, u.z as int, -f.z, v)
    }

    pub fn identity() -> (r: Orientation)
        ensures
            r == Orientation::identity_spec(),
    {
        Orientation { right: Face::Right, up: Face::Up, forward: Face::Front }
    }

    pub fn compose(self, other: Orientation) -> (r: Orientation)
        ensures
            r == self.compose_spec(other),
    {
        Orientation {
            right: self.apply(other.right),
            up: self.apply(other.up),
            forward: self.apply(other.forward),
        }
    }

    pub fn apply(self, face: Face) -> (r: Face)
        ensures
            r == self.apply_spec(face),
    {
        let (axis, dir) = face.axis_direction();
        let base = match axis {
            Axis::X => self.right,
            Axis::Y => self.up,
            Axis::Z => self.forward.opposite(),
        };
        if dir {
            base.opposite()
        } else {
            base
        }
    }

    /// The face that this orientation turns to `face`: the first one, where there are several.
    pub fn inverse_apply(self, face: Face) -> (r: Face)
        requires
            exists|test: Face| #[trigger] self.apply_spec(test) == face,
        ensures
            self.apply_spec(r) == face,
            exists|i: int|
                0 <= i < 6 && #[trigger] Face::all_spec()[i] == r && forall|j: int|
                    0 <= j < i ==> self.apply_spec(#[trigger] Face::all_spec()[j]) != face,
    {
        let all = Face::all();
        let ghost witness = choose|test: Face| #[trigger] self.apply_spec(test) == face;
        proof {
            law_all_faces(witness);
        }
        let mut i: usize = 0;
        while i < 6
            invariant
                i <= 6,
                all@ == Face::all_spec(),
                self.apply_spec(witness) == face,
                Face::all_spec().contains(witness),
                Face::all_spec().len() == 6,
                forall|j: int|
                    0 <= j < i ==> self.apply_spec(#[trigger] Face::all_spec()[j]) != face,
            decreases 6 - i,
        {
            let test = all[i];
            if self.apply(test) == face {
                assert(Face::all_spec()[i as int] == test);
                return test;
            }
            i += 1;
        }
        assert(false);
        face
    }

    /// Turns a point round the origin.
    pub fn rotate_block_pos(self, v: BlockPos) -> (r: BlockPos)
        requires
            self.can_rotate(v),
        ensures
            (r.x as int, r.y as int, r.z as int) == self.rotated(v),
    {
        let right = self.right.get_block_offset();
        let up = self.up.get_block_offset();
        let back = self.forward.get_block_offset().neg();
        let out = Vec3::zero() + right * v.x;
        let out = out + up * v.y;
        out + back * v.z
    }

    /// The orientation with these front and upper faces, unless they lie on one axis.
    pub fn from_front_up(front: Face, up: Face) -> (r: Option<Orientation>)
        ensures
            r is Some <==> front.axis() != up.axis(),
            r matches Some(o) ==> o.wf() && o.forward == front && o.up == up,
    {
        if front == up || front == up.opposite() {
            return None;
        }
        let right = front.cross(up);
        Some(Orientation { right, up, forward: front })
    }

    /// The orientation with these front and right faces, unless they lie on one axis.
    pub fn from_front_right(front: Face, right: Face) -> (r: Option<Orientation>)
        ensures
            r is Some <==> front.axis() != right.axis(),
            r matches Some(o) ==> o.wf() && o.forward == front && o.right == right,
    {
        if front == right || front == right.opposite() {
            return None;
        }
        let up = right.cross(front);
        Some(Orientation { right, up, forward: front })
    }

    /// Every orientation once, sorted by front face and then by upper face.
    pub fn all() -> (r: Vec<Orientation>)
        ensures
            r@ == Orientation::all_spec(),
    {
        let faces = Face::all();
        let mut result: Vec<Orientation> = Vec::new();
        let mut first: usize = 0;
        while first < 6
            invariant
                first <= 6,
                faces@ == Face::all_spec(),
                result@ == orientations_before(first as int, 0),
            decreases 6 - first,
        {
            let mut second: usize = 0;
            while second < 6
                invariant
                    first < 6,
                    second <= 6,
                    faces@ == Face::all_spec(),
                    result@ == orientations_before(first as int, second as int),
                decreases 6 - second,
            {
                if let Some(orientation) = Orientation::from_front_up(faces[first], faces[second]) {
                    result.push(orientation);
                }
                second += 1;
            }
            first += 1;
        }
        result
    }

    pub open spec fn all_spec() -> Seq<Orientation> {
        orientations_before(6, 0)
    }
}

/// The orientations whose front and upper face come before the `first`-th and `second`-th face,
/// taken as a pair.
pub open spec fn orientations_before(first: int, second: int) -> Seq<Orientation>
    decreases first, second,
{
    if first <= 0 && second <= 0 {
        Seq::empty()
    } else if second <= 0 {
        orientations_before(first - 1, 6)
    } else {
        let (front, up) = (Face::all_spec()[first], Face::all_spec()[second - 1]);
        let before = orientations_before(first, second - 1);
        if front.axis() == up.axis() {
            before
        } else {
            before.push(Orientation { right: front.cross_spec(up), up, forward: front })
        }
    }
}

/// Whether one coordinate of a turned point, with coefficients `a`, `b` and `c`, is computed
/// within thirty-two bits.
pub open spec fn step_fits(a: int, b: int, c: int, v: BlockPos) -> bool {
    &&& i32::MIN <= a * v.x <= i32::MAX
    &&& i32::MIN <= b * v.y <= i32::MAX
    &&& i32::MIN <= c * v.z <= i32::MAX
    &&& i32::MIN <= a * v.x + b * v.y <= i32::MAX
    &&& i32::MIN <= a * v.x + b * v.y + c * v.z <= i32::MAX
}

/// A turned block can turn every point that has no coordinate at the lowest number.
pub proof fn law_can_rotate(o: Orientation, v: BlockPos)
    requires
        o.wf(),
        v.x > i32::MIN,
        v.y > i32::MIN,
        v.z > i32::MIN,
    ensures
        o.can_rotate(v),
{
    let (r, u, f) = (o.right.offset(), o.up.offset(), o.forward.offset());
    assert(one_sign(r.x as int, u.x as int, -f.x) && one_sign(r.y as int, u.y as int, -f.y)
        && one_sign(r.z as int, u.z as int, -f.z));
    lemma_one_sign_fits(r.x as int, u.x as int, -f.x, v);
    lemma_one_sign_fits(r.y as int, u.y as int, -f.y, v);
    lemma_one_sign_fits(r.z as int, u.z as int, -f.z, v);
}

/// Whether one of the three numbers is a sign and the others are zero.
spec fn one_sign(a: int, b: int, c: int) -> bool {
    ||| (a == 1 || a == -1) && b == 0 && c == 0
    ||| a == 0 && (b == 1 || b == -1) && c == 0
    ||| a == 0 && b == 0 && (c == 1 || c == -1)
}

proof fn lemma_one_sign_fits(a: int, b: int, c: int, v: BlockPos)
    requires
        one_sign(a, b, c),
        v.x > i32::MIN,
        v.y > i32::MIN,
        v.z > i32::MIN,
    ensures
        step_fits(a, b, c, v),
{
    lemma_unit_product(a, v.x as int);
    lemma_unit_product(b, v.y as int);
    lemma_unit_product(c, v.z as int);
}

/// The products that make up a turned point.
pub proof fn lemma_rotated(o: Orientation, v: BlockPos)
    ensures
        ({
            let (r, u, f) = (o.right.offset(), o.up.offset(), o.forward.offset());
            &&& r.x * v.x == times(r.x as int, v.x as int)
            &&& r.y * v.x == times(r.y as int, v.x as int)
            &&& r.z * v.x == times(r.z as int, v.x as int)
            &&& u.x * v.y == times(u.x as int, v.y as int)
            &&& u.y * v.y == times(u.y as int, v.y as int)
            &&& u.z * v.y == times(u.z as int, v.y as int)
            &&& f.x * v.z == times(f.x as int, v.z as int)
            &&& f.y * v.z == times(f.y as int, v.z as int)
            &&& f.z * v.z == times(f.z as int, v.z as int)
            &&& (-f.x) * v.z == times(-f.x as int, v.z as int)
            &&& (-f.y) * v.z == times(-f.y as int, v.z as int)
            &&& (-f.z) * v.z == times(-f.z as int, v.z as int)
        }),
{
    let (r, u, f) = (o.right.offset(), o.up.offset(), o.forward.offset());
    lemma_unit_product(r.x as int, v.x as int);
    lemma_unit_product(r.y as int, v.x as int);
    lemma_unit_product(r.z as int, v.x as int);
    lemma_unit_product(u.x as int, v.y as int);
    lemma_unit_product(u.y as int, v.y as int);
    lemma_unit_product(u.z as int, v.y as int);
    lemma_unit_product(f.x as int, v.z as int);
    lemma_unit_product(f.y as int, v.z as int);
    lemma_unit_product(f.z as int, v.z as int);
    lemma_unit_product(-f.x as int, v.z as int);
    lemma_unit_product(-f.y as int, v.z as int);
    lemma_unit_product(-f.z as int, v.z as int);
}

/// `sign * v` for a sign.
pub open spec fn times(sign: int, v: int) -> int {
    if sign == 0 {
        0
    } else if sign == 1 {
        v
    } else {
        -v
    }
}

/// Turning a face keeps opposite faces opposite.
pub proof fn law_apply_opposite(o: Orientation, face: Face)
    ensures
        o.apply_spec(face.opposite_spec()) == o.apply_spec(face).opposite_spec(),
{
}

/// The right, the upper and the front face of a turned block point to where the orientation says.
pub proof fn law_apply(o: Orientation)
    ensures
        o.apply_spec(Face::Right) == o.right,
        o.apply_spec(Face::Up) == o.up,
        o.apply_spec(Face::Front) == o.forward,
{
}

/// The identity turns nothing.
pub proof fn law_identity(o: Orientation, face: Face)
    ensures
        Orientation::identity_spec().wf(),
        Orientation::identity_spec().apply_spec(face) == face,
        Orientation::identity_spec().compose_spec(o) == o,
        o.compose_spec(Orientation::identity_spec()) == o,
{
}

/// Composing is turning by `b` first and by `a` after that.
pub proof fn law_compose_applies(a: Orientation, b: Orientation, face: Face)
    ensures
        a.compose_spec(b).apply_spec(face) == a.apply_spec(b.apply_spec(face)),
{
    law_apply_opposite(a, b.right);
    law_apply_opposite(a, b.up);
    law_apply_opposite(a, b.forward);
}

/// Composing is associative.
pub proof fn law_compose_associative(a: Orientation, b: Orientation, c: Orientation)
    ensures
        a.compose_spec(b).compose_spec(c) == a.compose_spec(b.compose_spec(c)),
{
    law_compose_applies(a, b, c.right);
    law_compose_applies(a, b, c.up);
    law_compose_applies(a, b, c.forward);
}

/// A turned block shows different faces at different places, and every place shows one.
pub proof fn law_apply_bijective(o: Orientation, a: Face, b: Face)
    requires
        o.wf(),
    ensures
        o.apply_spec(a) == o.apply_spec(b) ==> a == b,
        exists|face: Face| #[trigger] o.apply_spec(face) == a,
{
    let _ = (
        o.apply_spec(Face::Front),
        o.apply_spec(Face::Back),
        o.apply_spec(Face::Up),
        o.apply_spec(Face::Down),
        o.apply_spec(Face::Left),
        o.apply_spec(Face::Right),
    );
}

/// Turning keeps cross products.
pub proof fn law_apply_cross(o: Orientation, a: Face, b: Face)
    requires
        o.wf(),
        a.axis() != b.axis(),
    ensures
        o.apply_spec(a).axis() != o.apply_spec(b).axis(),
        o.apply_spec(a.cross_spec(b)) == o.apply_spec(a).cross_spec(o.apply_spec(b)),
{
}

/// Composing two turned blocks gives a turned block.
pub proof fn law_compose_wf(a: Orientation, b: Orientation)
    requires
        a.wf(),
        b.wf(),
    ensures
        a.compose_spec(b).wf(),
{
    law_apply_cross(a, b.forward, b.up);
}

/// Turning the step of a face gives the step of the turned face.
pub proof fn law_rotate_follows_apply(o: Orientation, face: Face)
    ensures
        ({
            let step = o.apply_spec(face).offset();
            o.rotated(face.offset()) == (step.x as int, step.y as int, step.z as int)
        }),
{
    lemma_rotated(o, face.offset());
}

/// Turning keeps the distance of a point from the origin.
pub proof fn law_rotate_keeps_length(o: Orientation, v: BlockPos)
    requires
        o.wf(),
    ensures
        ({
            let r = o.rotated(v);
            r.0 * r.0 + r.1 * r.1 + r.2 * r.2 == v.x * v.x + v.y * v.y + v.z * v.z
        }),
{
    lemma_rotated(o, v);
    assert(forall|n: int| #[trigger] ((-n) * (-n)) == n * n) by (nonlinear_arith);
    let (x, y, z) = (v.x as int, v.y as int, v.z as int);
    assert((-x) * (-x) == x * x && (-y) * (-y) == y * y && (-z) * (-z) == z * z)
        by (nonlinear_arith);
}

} // verus!
