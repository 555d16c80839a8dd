//! Axis-aligned boxes.

use crate::coord::{BlockPos, Vec3};
use std::cmp::Ordering;
use std::ops::Add;
use vstd::prelude::*;
use vstd::std_specs::cmp::{OrdSpec, PartialOrdIs, PartialOrdSpec};
use vstd::std_specs::ops::AddSpec;

verus! {

/// The box of all points between two corners, the corners belonging to it.
#[derive(Clone, Copy)]
pub struct AABB<T: Copy> {
    pub min: Vec3<T>,
    pub max: Vec3<T>,
}

/// The lesser of two values: `a`, where they are equal.
pub open spec fn lesser<T: Ord>(a: T, b: T) -> T {
    if b.cmp_spec(&a) == Ordering::Less {
        b
    } else {
        a
    }
}

/// The greater of two values: `b`, where they are equal.
pub open spec fn greater<T: Ord>(a: T, b: T) -> T {
    if b.cmp_spec(&a) == Ordering::Less {
        a
    } else {
        b
    }
}

impl<T: Copy + Ord> AABB<T> {
    /// The box that `a` and `b` are opposite corners of.
    pub open spec fn spanned(a: Vec3<T>, b: Vec3<T>) -> AABB<T> {
        AABB {
            min: Vec3 { x: lesser(a.x, b.x), y: lesser(a.y, b.y), z: lesser(a.z, b.z) },
            max: Vec3 { x: greater(a.x, b.x), y: greater(a.y, b.y), z: greater(a.z, b.z) },
        }
    }

    /// Whether each coordinate of `point` lies between those of the corners.
    pub open spec fn holds(self, point: Vec3<T>) -> bool {
        &&& self.min.x.is_le(&point.x) && point.x.is_le(&self.max.x)
        &&& self.min.y.is_le(&point.y) && point.y.is_le(&self.max.y)
        &&& self.min.z.is_le(&point.z) && point.z.is_le(&self.max.z)
    }

    /// The box that `a` and `b` are opposite corners of.
    pub fn new(a: Vec3<T>, b: Vec3<T>) -> (r: AABB<T>)
        requires
            T::obeys_cmp_spec(),
        ensures
            r == AABB::spanned(a, b),
    {
        AABB {
            min: Vec3 { x: Ord::min(a.x, b.x), y: Ord::min(a.y, b.y), z: Ord::min(a.z, b.z) },
            max: Vec3 { x: Ord::max(a.x, b.x), y: Ord::max(a.y, b.y), z: Ord::max(a.z, b.z) },
        }
    }

    /// Whether `point` lies in the box.
    pub fn contains(self, point: Vec3<T>) -> (r: bool)
        requires
            T::obeys_partial_cmp_spec(),
        ensures
            r == self.holds(point),
    {
        self.min.x <= point.x && point.x <= self.max.x && self.min.y <= point.y && point.y
            <= self.max.y && self.min.z <= point.z && point.z <= self.max.z
    }

    /// Whether the ranges of the two boxes overlap on every axis.
    pub fn intersects(self, other: Self) -> (r: bool)
        requires
            T::obeys_partial_cmp_spec(),
        ensures
            r == ({
                &&& self.min.x.is_le(&other.max.x) && other.min.x.is_le(&self.max.x)
                &&& self.min.y.is_le(&other.max.y) && other.min.y.is_le(&self.max.y)
                &&& self.min.z.is_le(&other.max.z) && other.min.z.is_le(&self.max.z)
            }),
    {
        self.min.x <= other.max.x && other.min.x <= self.max.x && self.min.y <= other.max.y
            && other.min.y <= self.max.y && self.min.z <= other.max.z && other.min.z <= self.max.z
    }
}

impl<T: Copy + Add<T, Output = T>> AABB<T> {
    /// The box moved by `offset`.
    pub fn offset(self, offset: Vec3<T>) -> (r: Self)
        requires
            T::obeys_add_spec(),
            self.min.add_req(offset),
            self.max.add_req(offset),
        ensures
            r == (AABB { min: self.min.add_spec(offset), max: self.max.add_spec(offset) }),
    {
        AABB { min: self.min + offset, max: self.max + offset }
    }
}

/// A coordinate that a box can be walked along.
pub trait AABBWalkable: Copy + Ord {
    /// The number that the coordinate stands for.
    spec fn value(self) -> int;

    /// The greatest number that a coordinate can stand for.
    spec fn limit() -> int;

    proof fn value_is_unique(a: Self, b: Self)
        ensures
            a.value() == b.value() ==> a == b,
            a.value() <= Self::limit(),
    ;

    /// Whether this coordinate lies behind `max`.
    fn is_beyond(self, max: Self) -> (r: bool)
        ensures
            r == (self.value() > max.value()),
    ;

    /// Steps on by one. Returns whether `max` was passed; then the coordinate goes back to `min`,
    /// if `reset`.
    fn aabb_walk(&mut self, min: Self, max: Self, reset: bool) -> (r: bool)
        requires
            old(self).value() < Self::limit(),
        ensures
            r == (old(self).value() + 1 > max.value()),
            final(self).value() == if r && reset {
                min.value()
            } else {
                old(self).value() + 1
            },
    ;
}

impl AABBWalkable for i32 {
    open spec fn value(self) -> int {
        self as int
    }

    open spec fn limit() -> int {
        i32::MAX as int
    }

    proof fn value_is_unique(a: i32, b: i32) {
    }

    fn is_beyond(self, max: i32) -> (r: bool) {
        self > max
    }

    fn aabb_walk(&mut self, min: i32, max: i32, reset: bool) -> (r: bool) {
        *self = *self + 1;
        if *self > max {
            if reset {
                *self = min;
            }
            true
        } else {
            false
        }
    }
}

impl AABBWalkable for i16 {
    open spec fn value(self) -> int {
        self as int
    }

    open spec fn limit() -> int {
        i16::MAX as int
    }

    proof fn value_is_unique(a: i16, b: i16) {
    }

    fn is_beyond(self, max: i16) -> (r: bool) {
        self > max
    }

    fn aabb_walk(&mut self, min: i16, max: i16, reset: bool) -> (r: bool) {
        *self = *self + 1;
        if *self > max {
            if reset {
                *self = min;
            }
            true
        } else {
            false
        }
    }
}

/// How many coordinates a walk from `min` to `max` visits: one, where `max` lies before `min`.
pub open spec fn extent(min: int, max: int) -> int {
    if min <= max {
        max - min + 1
    } else {
        1
    }
}

impl<T: AABBWalkable> AABB<T> {
    /// Whether a walk can step past every coordinate of the box.
    pub open spec fn walkable(self) -> bool {
        &&& self.min.x.value() < T::limit() && self.max.x.value() < T::limit()
        &&& self.min.y.value() < T::limit() && self.max.y.value() < T::limit()
        &&& self.min.z.value() < T::limit() && self.max.z.value() < T::limit()
    }

    /// Whether no corner coordinate is out of order.
    pub open spec fn in_order(self) -> bool {
        &&& self.min.x.value() <= self.max.x.value()
        &&& self.min.y.value() <= self.max.y.value()
        &&& self.min.z.value() <= self.max.z.value()
    }

    /// Whether `p` lies between the corners, as numbers.
    pub open spec fn spans(self, p: Vec3<T>) -> bool {
        &&& self.min.x.value() <= p.x.value() <= self.max.x.value()
        &&& self.min.y.value() <= p.y.value() <= self.max.y.value()
        &&& self.min.z.value() <= p.z.value() <= self.max.z.value()
    }

    /// How many points the walk over the box visits.
    pub open spec fn volume(self) -> int {
        if self.max.z.value() < self.min.z.value() {
            0
        } else {
            extent(self.min.x.value(), self.max.x.value()) * extent(
                self.min.y.value(),
                self.max.y.value(),
            ) * extent(self.min.z.value(), self.max.z.value())
        }
    }

    /// The place of `p` in the walk: `x` changes fastest and `z` slowest.
    pub open spec fn rank(self, p: Vec3<T>) -> int {
        let lx = extent(self.min.x.value(), self.max.x.value());
        let ly = extent(self.min.y.value(), self.max.y.value());
        (p.x.value() - self.min.x.value()) + lx * ((p.y.value() - self.min.y.value()) + ly * (
        p.z.value() - self.min.z.value()))
    }

    /// A walk over the points of the box, from its lowest corner on.
    pub fn into_iter(self) -> (r: AABBIterator<T>)
        requires
            self.walkable(),
        ensures
            r.bb == self,
            r.head == self.min,
            r.wf(),
    {
        AABBIterator { bb: self, head: self.min }
    }

    /// Every point of the walk over the box, in order.
    pub fn points(self) -> (r: Vec<Vec3<T>>)
        requires
            self.walkable(),
        ensures
            r@.len() == self.volume(),
            forall|i: int| 0 <= i < r@.len() ==> self.rank(#[trigger] r@[i]) == i,
            self.in_order() ==> forall|p: Vec3<T>| #[trigger] r@.contains(p) <==> self.spans(p),
    {
        let mut walk = self.into_iter();
        let mut points: Vec<Vec3<T>> = Vec::new();
        let ghost lx = extent(self.min.x.value(), self.max.x.value());
        let ghost ly = extent(self.min.y.value(), self.max.y.value());
        let ghost lz = extent(self.min.z.value(), self.max.z.value());
        proof {
            lemma_place_start(lx, ly);
        }
        loop
            invariant
                walk.bb == self,
                walk.wf(),
                self.walkable(),
                lx == extent(self.min.x.value(), self.max.x.value()),
                ly == extent(self.min.y.value(), self.max.y.value()),
                lz == extent(self.min.z.value(), self.max.z.value()),
                self.rank(walk.head) == points@.len(),
                forall|i: int| 0 <= i < points@.len() ==> self.rank(#[trigger] points@[i]) == i,
                forall|i: int|
                    0 <= i < points@.len() ==> self.in_order() ==> self.spans(
                        #[trigger] points@[i],
                    ),
            ensures
                walk.head.z.value() > self.max.z.value(),
            decreases self.volume() - self.rank(walk.head),
        {
            let ghost head = walk.head;
            let ghost (x, y, z) = (
                head.x.value() - self.min.x.value(),
                head.y.value() - self.min.y.value(),
                head.z.value() - self.min.z.value(),
            );
            match walk.next() {
                Some(point) => {
                    proof {
                        lemma_place_steps(lx, ly, x, y, z);
                        lemma_place_bounds(lx, ly, lz, x, y, z);
                        assert(self.rank(head) == place(lx, ly, x, y, z));
                        assert(self.rank(walk.head) == place(lx, ly, x, y, z) + 1);
                    }
                    points.push(point);
                },
                None => {
                    break;
                },
            }
        }
        proof {
            lemma_place_start(lx, ly);
            lemma_place_end(lx, ly, lz);
            if self.in_order() {
                assert forall|p: Vec3<T>| self.spans(p) implies #[trigger] points@.contains(p) by {
                    law_walk_ranks(self, p, p);
                    law_walk_ranks(self, p, points@[self.rank(p)]);
                }
            }
        }
        points
    }
}

/// A walk over the points of a box.
pub struct AABBIterator<T: Copy + Ord> {
    pub bb: AABB<T>,
    pub head: Vec3<T>,
}

/// Whether the walk over `bb` goes from `o` to `f`: along `x`, at its end on to the next `y`, and
/// at the end of that to the next `z`.
pub open spec fn stepped<T: AABBWalkable>(bb: AABB<T>, o: Vec3<T>, f: Vec3<T>) -> bool {
    let x_done = o.x.value() + 1 > bb.max.x.value();
    let y_done = o.y.value() + 1 > bb.max.y.value();
    &&& f.x.value() == if x_done {
        bb.min.x.value()
    } else {
        o.x.value() + 1
    }
    &&& f.y.value() == if !x_done {
        o.y.value()
    } else if y_done {
        bb.min.y.value()
    } else {
        o.y.value() + 1
    }
    &&& f.z.value() == if x_done && y_done {
        o.z.value() + 1
    } else {
        o.z.value()
    }
}

impl<T: AABBWalkable> AABBIterator<T> {
    /// Whether the walk has not left the ground of the box.
    pub open spec fn wf(self) -> bool {
        let bb = self.bb;
        &&& bb.walkable()
        &&& bb.min.x.value() <= self.head.x.value() < bb.min.x.value() + extent(
            bb.min.x.value(),
            bb.max.x.value(),
        )
        &&& bb.min.y.value() <= self.head.y.value() < bb.min.y.value() + extent(
            bb.min.y.value(),
            bb.max.y.value(),
        )
        &&& bb.min.z.value() <= self.head.z.value()
        &&& self.head.z.value() <= bb.max.z.value() + 1 || self.head.z.value() == bb.min.z.value()
        &&& self.head.z.value() > bb.max.z.value() ==> self.head.x.value() == bb.min.x.value()
            && self.head.y.value() == bb.min.y.value()
    }

    /// The next point of the walk: `None` once the highest layer is done.
    pub fn next(&mut self) -> (r: Option<Vec3<T>>)
        requires
            old(self).wf(),
        ensures
            final(self).wf(),
            final(self).bb == old(self).bb,
            old(self).head.z.value() > old(self).bb.max.z.value() ==> r is None && *final(self)
                == *old(self),
            old(self).head.z.value() <= old(self).bb.max.z.value() ==> {
                &&& r == Some(old(self).head)
                &&& stepped(old(self).bb, old(self).head, final(self).head)
            },
    {
        if self.head.z.is_beyond(self.bb.max.z) {
            return None;
        }
        let previous_head = self.head;
        let mut head = self.head;
        let bb = self.bb;
        if head.x.aabb_walk(bb.min.x, bb.max.x, true) {
            if head.y.aabb_walk(bb.min.y, bb.max.y, true) {
                head.z.aabb_walk(bb.min.z, bb.max.z, false);
            }
        }
        self.head = head;
        Some(previous_head)
    }
}

/// The place of a point in a walk over a box of `lx` by `ly` columns.
spec fn place(lx: int, ly: int, x: int, y: int, z: int) -> int {
    x + lx * (y + ly * z)
}

proof fn lemma_place_start(lx: int, ly: int)
    ensures
        place(lx, ly, 0, 0, 0) == 0,
{
    assert(lx * (0 + ly * 0) == 0) by (nonlinear_arith);
}

proof fn lemma_place_steps(lx: int, ly: int, x: int, y: int, z: int)
    ensures
        place(lx, ly, 0, y + 1, z) == place(lx, ly, lx - 1, y, z) + 1,
        place(lx, ly, 0, 0, z + 1) == place(lx, ly, lx - 1, ly - 1, z) + 1,
{
    assert(lx * (y + 1 + ly * z) == lx * (y + ly * z) + lx) by (nonlinear_arith);
    assert(ly * (z + 1) == ly * z + ly) by (nonlinear_arith);
    assert(lx * (ly + ly * z) == lx * (ly - 1 + ly * z) + lx) by (nonlinear_arith);
}

proof fn lemma_place_bounds(lx: int, ly: int, lz: int, x: int, y: int, z: int)
    requires
        0 <= x < lx,
        0 <= y < ly,
        0 <= z < lz,
    ensures
        0 <= place(lx, ly, x, y, z) < lx * ly * lz,
{
    assert(0 <= ly * z) by (nonlinear_arith)
        requires
            0 <= y < ly,
            0 <= z,
    ;
    assert(ly * z + ly <= ly * lz) by (nonlinear_arith)
        requires
            0 <= z < lz,
            0 < ly,
    ;
    let k = y + ly * z;
    assert(0 <= k < ly * lz);
    assert(0 <= lx * k) by (nonlinear_arith)
        requires
            0 <= k,
            0 < lx,
    ;
    assert(lx * k + lx <= lx * (ly * lz)) by (nonlinear_arith)
        requires
            k < ly * lz,
            0 < lx,
    ;
    assert(lx * (ly * lz) == lx * ly * lz) by (nonlinear_arith);
}

proof fn lemma_place_end(lx: int, ly: int, lz: int)
    ensures
        place(lx, ly, 0, 0, lz) == lx * ly * lz,
{
    assert(lx * (0 + ly * lz) == lx * ly * lz) by (nonlinear_arith);
}

proof fn lemma_digits_unique(l: int, a: int, k: int, b: int, m: int)
    requires
        0 <= a < l,
        0 <= b < l,
        a + l * k == b + l * m,
    ensures
        a == b,
        k == m,
{
    if k < m {
        assert(l * k + l <= l * m) by (nonlinear_arith)
            requires
                k < m,
                0 < l,
        ;
    } else if m < k {
        assert(l * m + l <= l * k) by (nonlinear_arith)
            requires
                m < k,
                0 < l,
        ;
    }
}

/// In a box with its corners in order, the walk meets a point that lies in the box at its rank and
/// at no other place.
pub proof fn law_walk_ranks<T: AABBWalkable>(bb: AABB<T>, p: Vec3<T>, q: Vec3<T>)
    requires
        bb.spans(p),
        bb.spans(q),
    ensures
        0 <= bb.rank(p) < bb.volume(),
        bb.rank(p) == bb.rank(q) ==> p == q,
{
    let (lx, ly, lz) = (
        extent(bb.min.x.value(), bb.max.x.value()),
        extent(bb.min.y.value(), bb.max.y.value()),
        extent(bb.min.z.value(), bb.max.z.value()),
    );
    let (px, py, pz) = (
        p.x.value() - bb.min.x.value(),
        p.y.value() - bb.min.y.value(),
        p.z.value() - bb.min.z.value(),
    );
    let (qx, qy, qz) = (
        q.x.value() - bb.min.x.value(),
        q.y.value() - bb.min.y.value(),
        q.z.value() - bb.min.z.value(),
    );
    lemma_place_bounds(lx, ly, lz, px, py, pz);
    if bb.rank(p) == bb.rank(q) {
        lemma_digits_unique(lx, px, py + ly * pz, qx, qy + ly * qz);
        lemma_digits_unique(ly, py, pz, qy, qz);
        T::value_is_unique(p.x, q.x);
        T::value_is_unique(p.y, q.y);
        T::value_is_unique(p.z, q.z);
    }
}

/// A box spanned by two block positions has its corners in order and holds both.
pub proof fn law_new_holds_corners(a: BlockPos, b: BlockPos)
    ensures
        AABB::spanned(a, b).in_order(),
        AABB::spanned(a, b).holds(a),
        AABB::spanned(a, b).holds(b),
{
}

/// For block positions, lying in a box is lying between its corners as numbers.
pub proof fn law_holds_spans(bb: AABB<i32>, p: BlockPos)
    ensures
        bb.holds(p) == bb.spans(p),
{
}

/// The walk over a box begins at its lowest corner and goes along `x` first, then along `y` and at
/// last along `z`.
pub proof fn law_walk_order<T: AABBWalkable>(bb: AABB<T>, p: Vec3<T>, q: Vec3<T>)
    requires
        bb.in_order(),
        bb.spans(p),
        bb.spans(q),
    ensures
        p.x.value() == bb.min.x.value() && p.y.value() == bb.min.y.value() && p.z.value()
            == bb.min.z.value() ==> bb.rank(p) == 0,
        p.z.value() == q.z.value() && p.y.value() == q.y.value() ==> bb.rank(q) - bb.rank(p)
            == q.x.value() - p.x.value(),
        p.z.value() == q.z.value() && p.y.value() < q.y.value() ==> bb.rank(p) < bb.rank(q),
        p.z.value() < q.z.value() ==> bb.rank(p) < bb.rank(q),
{
    let lx = extent(bb.min.x.value(), bb.max.x.value());
    let ly = extent(bb.min.y.value(), bb.max.y.value());
    let (px, py, pz) = (
        p.x.value() - bb.min.x.value(),
        p.y.value() - bb.min.y.value(),
        p.z.value() - bb.min.z.value(),
    );
    let (qx, qy, qz) = (
        q.x.value() - bb.min.x.value(),
        q.y.value() - bb.min.y.value(),
        q.z.value() - bb.min.z.value(),
    );
    assert(lx * (0 + ly * 0) == 0) by (nonlinear_arith);
    if pz < qz {
        assert(py + ly * pz < qy + ly * qz) by (nonlinear_arith)
            requires
                0 <= py < ly,
                0 <= qy,
                pz < qz,
        ;
    }
    let (a, b) = (py + ly * pz, qy + ly * qz);
    if a < b {
        assert(px + lx * a < qx + lx * b) by (nonlinear_arith)
            requires
                0 <= px < lx,
                0 <= qx,
                a < b,
        ;
    }
}

/// A box holds as many points as its sides are long.
pub proof fn law_volume<T: AABBWalkable>(bb: AABB<T>)
    requires
        bb.in_order(),
    ensures
        bb.volume() == (bb.max.x.value() - bb.min.x.value() + 1) * (bb.max.y.value()
            - bb.min.y.value() + 1) * (bb.max.z.value() - bb.min.z.value() + 1),
{
}

} // verus!
