//! Vectors, block and chunk positions, and offsets inside a chunk.

use num_integer::Integer;
use std::ops::{Add, Div, Mul, Neg, Sub};
use vstd::prelude::*;
use vstd::std_specs::ops::{AddSpec, DivSpec, MulSpec, NegSpec, SubSpec};

verus! {

pub const CHUNK_SIZE_BITS: u8 = 5;

pub const CHUNK_SIZE: usize = 32;

/// A vector of three components.
#[derive(Clone, Copy, PartialEq, Eq, Hash, Debug)]
pub struct Vec3<T: Copy> {
    pub x: T,
    pub y: T,
    pub z: T,
}

impl<T: Copy> Vec3<T> {
    /// The vector whose three components are `value`.
    pub fn all(value: T) -> (r: Vec3<T>)
        ensures
            r == (Vec3 { x: value, y: value, z: value }),
    {
        Vec3 { x: value, y: value, z: value }
    }
}

impl<T: Copy + Add<Output = T>> vstd::std_specs::ops::AddSpecImpl for Vec3<T> {
    open spec fn obeys_add_spec() -> bool {
        T::obeys_add_spec()
    }

    open spec fn add_req(self, rhs: Vec3<T>) -> bool {
        self.x.add_req(rhs.x) && self.y.add_req(rhs.y) && self.z.add_req(rhs.z)
    }

    open spec fn add_spec(self, rhs: Vec3<T>) -> Vec3<T> {
        Vec3 { x: self.x.add_spec(rhs.x), y: self.y.add_spec(rhs.y), z: self.z.add_spec(rhs.z) }
    }
}

impl<T: Copy + Add<Output = T>> Add for Vec3<T> {
    type Output = Vec3<T>;

    fn add(self, rhs: Vec3<T>) -> Vec3<T> {
        Vec3 { x: self.x + rhs.x, y: self.y + rhs.y, z: self.z + rhs.z }
    }
}

impl<T: Copy + Sub<Output = T>> vstd::std_specs::ops::SubSpecImpl for Vec3<T> {
    open spec fn obeys_sub_spec() -> bool {
        T::obeys_sub_spec()
    }

    open spec fn sub_req(self, rhs: Vec3<T>) -> bool {
        self.x.sub_req(rhs.x) && self.y.sub_req(rhs.y) && self.z.sub_req(rhs.z)
    }

    open spec fn sub_spec(self, rhs: Vec3<T>) -> Vec3<T> {
        Vec3 { x: self.x.sub_spec(rhs.x), y: self.y.sub_spec(rhs.y), z: self.z.sub_spec(rhs.z) }
    }
}

impl<T: Copy + Sub<Output = T>> Sub for Vec3<T> {
    type Output = Vec3<T>;

    fn sub(self, rhs: Vec3<T>) -> Vec3<T> {
        Vec3 { x: self.x - rhs.x, y: self.y - rhs.y, z: self.z - rhs.z }
    }
}

impl<T: Copy + Neg<Output = T>> vstd::std_specs::ops::NegSpecImpl for Vec3<T> {
    open spec fn obeys_neg_spec() -> bool {
        T::obeys_neg_spec()
    }

    open spec fn neg_req(self) -> bool {
        self.x.neg_req() && self.y.neg_req() && self.z.neg_req()
    }

    open spec fn neg_spec(self) -> Vec3<T> {
        Vec3 { x: self.x.neg_spec(), y: self.y.neg_spec(), z: self.z.neg_spec() }
    }
}

impl<T: Copy + Neg<Output = T>> Neg for Vec3<T> {
    type Output = Vec3<T>;

    fn neg(self) -> Vec3<T> {
        Vec3 { x: self.x.neg(), y: self.y.neg(), z: self.z.neg() }
    }
}

impl<T: Copy + Mul<T, Output = T>> vstd::std_specs::ops::MulSpecImpl<T> for Vec3<T> {
    open spec fn obeys_mul_spec() -> bool {
        T::obeys_mul_spec()
    }

    open spec fn mul_req(self, rhs: T) -> bool {
        self.x.mul_req(rhs) && self.y.mul_req(rhs) && self.z.mul_req(rhs)
    }

    open spec fn mul_spec(self, rhs: T) -> Vec3<T> {
        Vec3 { x: self.x.mul_spec(rhs), y: self.y.mul_spec(rhs), z: self.z.mul_spec(rhs) }
    }
}

impl<T: Copy + Mul<T, Output = T>> Mul<T> for Vec3<T> {
    type Output = Vec3<T>;

    fn mul(self, rhs: T) -> Vec3<T> {
        Vec3 { x: self.x * rhs, y: self.y * rhs, z: self.z * rhs }
    }
}

impl<T: Copy + Div<T, Output = T>> vstd::std_specs::ops::DivSpecImpl<T> for Vec3<T> {
    open spec fn obeys_div_spec() -> bool {
        T::obeys_div_spec()
    }

    open spec fn div_req(self, rhs: T) -> bool {
        self.x.div_req(rhs) && self.y.div_req(rhs) && self.z.div_req(rhs)
    }

    open spec fn div_spec(self, rhs: T) -> Vec3<T> {
        Vec3 { x: self.x.div_spec(rhs), y: self.y.div_spec(rhs), z: self.z.div_spec(rhs) }
    }
}

impl<T: Copy + Div<T, Output = T>> Div<T> for Vec3<T> {
    type Output = Vec3<T>;

    fn div(self, rhs: T) -> Vec3<T> {
        Vec3 { x: self.x / rhs, y: self.y / rhs, z: self.z / rhs }
    }
}

/// The sum of the products of the components of two vectors, in the arithmetic of `T`.
pub open spec fn dot_spec<T: Copy + Add<Output = T> + Mul<Output = T>>(
    a: Vec3<T>,
    b: Vec3<T>,
) -> T {
    a.x.mul_spec(b.x).add_spec(a.y.mul_spec(b.y)).add_spec(a.z.mul_spec(b.z))
}

/// Whether `T` can compute `dot_spec(a, b)`: each product and each partial sum is in its range.
pub open spec fn dot_req<T: Copy + Add<Output = T> + Mul<Output = T>>(
    a: Vec3<T>,
    b: Vec3<T>,
) -> bool {
    &&& T::obeys_add_spec() && T::obeys_mul_spec()
    &&& a.x.mul_req(b.x) && a.y.mul_req(b.y) && a.z.mul_req(b.z)
    &&& a.x.mul_spec(b.x).add_req(a.y.mul_spec(b.y))
    &&& a.x.mul_spec(b.x).add_spec(a.y.mul_spec(b.y)).add_req(a.z.mul_spec(b.z))
}

impl<T: Copy + Add<Output = T> + Mul<Output = T> + Sub<Output = T>> Vec3<T> {
    /// The square of the vector's length.
    pub fn length_squared(self) -> (r: T)
        requires
            dot_req(self, self),
        ensures
            r == dot_spec(self, self),
    {
        (self.x * self.x) + (self.y * self.y) + (self.z * self.z)
    }

    /// The square of the distance between two points.
    pub fn distance_squared(self, other: Self) -> (r: T)
        requires
            T::obeys_sub_spec(),
            self.sub_req(other),
            dot_req(self.sub_spec(other), self.sub_spec(other)),
        ensures
            r == dot_spec(self.sub_spec(other), self.sub_spec(other)),
    {
        (self - other).length_squared()
    }

    /// The dot product of two vectors.
    pub fn dot(self, other: Self) -> (r: T)
        requires
            dot_req(self, other),
        ensures
            r == dot_spec(self, other),
    {
        self.x * other.x + self.y * other.y + self.z * other.z
    }
}


pub type BlockPos = Vec3<i32>;

pub type ChunkPos = Vec3<i16>;

/// The quotient of a floored division.
///
/// `Integer::div_floor` of `num_integer`: the greatest integer not above `a / b`.
#[verifier::external_body]
fn div_floor(a: i32, b: i32) -> (q: i32)
    requires
        b > 0,
    ensures
        q == a as int / b as int,
{
    Integer::div_floor(&a, &b)
}

/// The remainder of a floored division.
///
/// `Integer::mod_floor` of `num_integer`: what `a` exceeds the greatest multiple of `b` not above it by.
#[verifier::external_body]
fn mod_floor(a: i32, b: i32) -> (m: i32)
    requires
        b > 0,
    ensures
        m == a as int % b as int,
{
    a.mod_floor(&b)
}

/// Quotient and remainder of a floored division.
///
/// `Integer::div_mod_floor` of `num_integer`: the results of `div_floor` and `mod_floor`.
#[verifier::external_body]
fn div_mod_floor(a: i32, b: i32) -> (r: (i32, i32))
    requires
        b > 0,
    ensures
        r.0 == a as int / b as int,
        r.1 == a as int % b as int,
{
    a.div_mod_floor(&b)
}

/// The coordinate of the chunk that holds block coordinate `v`, before it is cut to sixteen bits.
pub open spec fn chunk_coordinate(v: int) -> int {
    v / 32
}

/// `v` cut to its low sixteen bits, read as a signed number.
pub open spec fn wrap_i16(v: int) -> int {
    (v + 32768) % 65536 - 32768
}

/// The chunk position that a block position falls in.
pub open spec fn chunk_pos_spec(p: BlockPos) -> ChunkPos {
    Vec3 {
        x: wrap_i16(chunk_coordinate(p.x as int)) as i16,
        y: wrap_i16(chunk_coordinate(p.y as int)) as i16,
        z: wrap_i16(chunk_coordinate(p.z as int)) as i16,
    }
}

/// Whether the coordinates of a block's chunk fit in sixteen bits, so that no other block shares
/// its chunk and its place in it.
pub open spec fn has_own_chunk(p: BlockPos) -> bool {
    &&& -32768 * 32 <= p.x < 32768 * 32
    &&& -32768 * 32 <= p.y < 32768 * 32
    &&& -32768 * 32 <= p.z < 32768 * 32
}

/// The position of a block inside its chunk.
pub open spec fn chunk_offset_spec(p: BlockPos) -> ChunkOffset {
    ChunkOffset::packed(p.x as int % 32, p.y as int % 32, p.z as int % 32)
}

proof fn lemma_truncate_i16(v: i32)
    ensures
        v as i16 == wrap_i16(v as int),
{
    assert(v as i16 == (v + 32768) % 65536 - 32768) by (bit_vector);
}

impl Vec3<i32> {
    /// The origin.
    pub fn zero() -> (r: BlockPos)
        ensures
            r == (Vec3 { x: 0i32, y: 0i32, z: 0i32 }),
    {
        Vec3 { x: 0, y: 0, z: 0 }
    }

    /// The chunk that holds this block. Chunk coordinates are cut to sixteen bits.
    pub fn to_chunk_pos(self) -> (r: ChunkPos)
        ensures
            r == chunk_pos_spec(self),
    {
        let x: i32 = div_floor(self.x, CHUNK_SIZE as i32);
        let y: i32 = div_floor(self.y, CHUNK_SIZE as i32);
        let z: i32 = div_floor(self.z, CHUNK_SIZE as i32);
        proof {
            lemma_truncate_i16(x);
            lemma_truncate_i16(y);
            lemma_truncate_i16(z);
        }
        Vec3 { x: x as i16, y: y as i16, z: z as i16 }
    }

    /// The place of this block inside its chunk.
    pub fn to_chunk_offset(self) -> (r: ChunkOffset)
        ensures
            r == chunk_offset_spec(self),
    {
        ChunkOffset::new(
            mod_floor(self.x, CHUNK_SIZE as i32) as u8,
            mod_floor(self.y, CHUNK_SIZE as i32) as u8,
            mod_floor(self.z, CHUNK_SIZE as i32) as u8,
        )
    }

    /// The chunk that holds this block and the block's place in it.
    pub fn to_chunk_pos_offset(self) -> (r: (ChunkPos, ChunkOffset))
        ensures
            r.0 == chunk_pos_spec(self),
            r.1 == chunk_offset_spec(self),
    {
        let (x, mx): (i32, i32) = div_mod_floor(self.x, CHUNK_SIZE as i32);
        let (y, my): (i32, i32) = div_mod_floor(self.y, CHUNK_SIZE as i32);
        let (z, mz): (i32, i32) = div_mod_floor(self.z, CHUNK_SIZE as i32);
        proof {
            lemma_truncate_i16(x);
            lemma_truncate_i16(y);
            lemma_truncate_i16(z);
        }
        (
            Vec3 { x: x as i16, y: y as i16, z: z as i16 },
            ChunkOffset::new(mx as u8, my as u8, mz as u8),
        )
    }
}

impl Vec3<i16> {
    /// The lowest corner of the chunk.
    pub fn to_block_pos(self) -> (r: BlockPos)
        ensures
            r.x == self.x * 32,
            r.y == self.y * 32,
            r.z == self.z * 32,
    {
        assert(forall|v: i16| #[trigger] (v as i32 * CHUNK_SIZE as i32) == v * 32) by (nonlinear_arith);
        Vec3 {
            x: self.x as i32 * CHUNK_SIZE as i32,
            y: self.y as i32 * CHUNK_SIZE as i32,
            z: self.z as i32 * CHUNK_SIZE as i32,
        }
    }
}

/// A block's place inside a chunk: five bits for each coordinate, `x` lowest.
#[derive(Copy, Clone, PartialEq, Eq, Structural, Debug)]
pub struct ChunkOffset(pub u16);

impl ChunkOffset {
    /// The offset whose coordinates are `x`, `y` and `z`, each below 32.
    pub open spec fn packed(x: int, y: int, z: int) -> ChunkOffset {
        ChunkOffset((x + 32 * y + 1024 * z) as u16)
    }

    /// Whether no bit above the three coordinates is set.
    pub open spec fn in_chunk(self) -> bool {
        self.0 < 32768
    }

    /// Packs three coordinates. The bits of a coordinate above its five run into those of the next.
    pub fn new(x: u8, y: u8, z: u8) -> (r: ChunkOffset)
        ensures
            r.0 == (x as u16 | ((y as u16) << 5u16) | ((z as u16) << 10u16)),
            x < 32 && y < 32 && z < 32 ==> r == ChunkOffset::packed(x as int, y as int, z as int),
            x < 32 && y < 32 && z < 32 ==> r.in_chunk(),
    {
        proof {
            let (a, b, c) = (x as u16, y as u16, z as u16);
            assert(a < 32 && b < 32 && c < 32 ==> (a | (b << 5u16) | (c << 10u16)) == a + 32 * b
                + 1024 * c) by (bit_vector);
            assert(a < 32 && b < 32 && c < 32 ==> (a | (b << 5u16) | (c << 10u16)) < 32768u16)
                by (bit_vector);
        }
        ChunkOffset((x as u16) | ((y as u16) << 5u16) | ((z as u16) << 10u16))
    }

    /// The three coordinates.
    pub open spec fn xyz_spec(self) -> BlockPos {
        Vec3 {
            x: (self.0 as int % 32) as i32,
            y: (self.0 as int / 32 % 32) as i32,
            z: (self.0 as int / 1024 % 32) as i32,
        }
    }

    /// The three coordinates.
    pub fn xyz(self) -> (r: BlockPos)
        ensures
            r == self.xyz_spec(),
    {
        let mask: u16 = CHUNK_SIZE as u16 - 1;
        proof {
            let v = self.0;
            assert(v & 31u16 == v % 32) by (bit_vector);
            assert((v >> 5u16) & 31u16 == (v / 32) % 32) by (bit_vector);
            assert((v >> 10u16) & 31u16 == (v / 1024) % 32) by (bit_vector);
        }
        Vec3 {
            x: (self.0 & mask) as i32,
            y: ((self.0 >> 5u16) & mask) as i32,
            z: ((self.0 >> 10u16) & mask) as i32,
        }
    }

    /// The offset as an index into the blocks of a chunk.
    pub fn index(self) -> (r: usize)
        ensures
            r == self.0,
    {
        self.0 as usize
    }
}

/// An offset packed from three coordinates below 32 unpacks to the same coordinates.
pub proof fn law_chunk_offset_unpacks(x: int, y: int, z: int)
    requires
        0 <= x < 32,
        0 <= y < 32,
        0 <= z < 32,
    ensures
        ChunkOffset::packed(x, y, z).xyz_spec() == (Vec3 { x: x as i32, y: y as i32, z: z as i32 }),
        ChunkOffset::packed(x, y, z).in_chunk(),
{
}

/// Packing the coordinates of an offset inside a chunk gives the offset back.
pub proof fn law_chunk_offset_packs(offset: ChunkOffset)
    requires
        offset.in_chunk(),
    ensures
        ChunkOffset::packed(
            offset.xyz_spec().x as int,
            offset.xyz_spec().y as int,
            offset.xyz_spec().z as int,
        ) == offset,
{
}

/// A block position is the corner of its chunk plus its place in the chunk, wherever the chunk
/// coordinates fit in sixteen bits.
pub proof fn law_block_pos_splits(p: BlockPos)
    requires
        has_own_chunk(p),
    ensures
        chunk_pos_spec(p).x * 32 + chunk_offset_spec(p).xyz_spec().x == p.x,
        chunk_pos_spec(p).y * 32 + chunk_offset_spec(p).xyz_spec().y == p.y,
        chunk_pos_spec(p).z * 32 + chunk_offset_spec(p).xyz_spec().z == p.z,
{
    law_chunk_offset_unpacks(p.x as int % 32, p.y as int % 32, p.z as int % 32);
}

/// Every block of a chunk maps back to that chunk and to its own offset.
pub proof fn law_chunk_blocks_stay(chunk: ChunkPos, offset: ChunkOffset, p: BlockPos)
    requires
        offset.in_chunk(),
        p.x == chunk.x * 32 + offset.xyz_spec().x,
        p.y == chunk.y * 32 + offset.xyz_spec().y,
        p.z == chunk.z * 32 + offset.xyz_spec().z,
    ensures
        chunk_pos_spec(p) == chunk,
        chunk_offset_spec(p) == offset,
{
    law_chunk_offset_packs(offset);
}

/// Vectors are added, taken away, turned round, stretched and multiplied by each coordinate.
pub proof fn law_vectors(a: BlockPos, b: BlockPos, k: i32)
    ensures
        a.add_req(b) ==> {
            let r = a.add_spec(b);
            r.x == a.x + b.x && r.y == a.y + b.y && r.z == a.z + b.z
        },
        a.sub_req(b) ==> {
            let r = a.sub_spec(b);
            r.x == a.x - b.x && r.y == a.y - b.y && r.z == a.z - b.z
        },
        a.neg_req() ==> {
            let r = a.neg_spec();
            r.x == -a.x && r.y == -a.y && r.z == -a.z
        },
        a.mul_req(k) ==> {
            let r = a.mul_spec(k);
            r.x == a.x * k && r.y == a.y * k && r.z == a.z * k
        },
        dot_req(a, b) ==> dot_spec(a, b) == a.x * b.x + a.y * b.y + a.z * b.z,
{
}

/// A block inside a chunk is numbered by its coordinates, `x` first and `z` last.
pub proof fn law_offsets_in_order(x: int, y: int, z: int)
    requires
        0 <= x < 32,
        0 <= y < 32,
        0 <= z < 32,
    ensures
        ChunkOffset::packed(0, 0, 0).0 == 0,
        x < 31 ==> ChunkOffset::packed(x + 1, y, z).0 == ChunkOffset::packed(x, y, z).0 + 1,
        y < 31 ==> ChunkOffset::packed(x, y + 1, z).0 == ChunkOffset::packed(x, y, z).0 + 32,
        z < 31 ==> ChunkOffset::packed(x, y, z + 1).0 == ChunkOffset::packed(x, y, z).0 + 1024,
{
}

} // verus!
