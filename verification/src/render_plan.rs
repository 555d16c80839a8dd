//! What is drawn in a frame.

use crate::client_world::{chunk_distance, near, ClientWorld};
use crate::coord::{ChunkPos, Vec3};
use vstd::prelude::*;

verus! {

/// Why a frame could not be shown.
#[derive(Copy, Clone, PartialEq, Eq, Structural, Debug)]
pub enum SurfaceError {
    /// The surface has to be made anew.
    Recreate,
    Crash,
}

/// What the window has for a frame.
#[derive(Copy, Clone, PartialEq, Eq, Structural, Debug)]
pub enum SurfaceState {
    Success,
    Suboptimal,
    Outdated,
    Lost,
    Timeout,
    Validation,
    Occluded,
}

/// Whether the frame is drawn: `Ok(false)` means that it is left out.
pub fn surface_result(state: SurfaceState) -> (r: Result<bool, SurfaceError>)
    ensures
        r == match state {
            SurfaceState::Success => Ok::<bool, SurfaceError>(true),
            SurfaceState::Outdated | SurfaceState::Suboptimal => Err(SurfaceError::Recreate),
            SurfaceState::Lost => Err(SurfaceError::Crash),
            _ => Ok(false),
        },
{
    match state {
        SurfaceState::Success => Ok(true),
        SurfaceState::Outdated | SurfaceState::Suboptimal => Err(SurfaceError::Recreate),
        SurfaceState::Lost => Err(SurfaceError::Crash),
        SurfaceState::Timeout | SurfaceState::Validation | SurfaceState::Occluded => Ok(false),
    }
}

/// Whether a window of that size can be drawn on.
pub fn can_resize(width: u32, height: u32) -> (r: bool)
    ensures
        r == (width > 0 && height > 0),
{
    width > 0 && height > 0
}

/// The square of the distance up to which chunks throw detailed shadows.
pub const SHADOW_DETAIL_DISTANCE: i32 = 2;

/// The square of the distance up to which chunks are shown in detail.
pub const DETAIL_DISTANCE: i32 = 25;

/// How far chunks throw shadows.
pub const SHADOW_DISTANCE: i16 = 5;

/// Whether a chunk is so near to the camera that its details are drawn.
fn is_detailed(chunk: ChunkPos, camera: ChunkPos, limit: i32) -> (r: bool)
    requires
        near(chunk, camera),
    ensures
        r == (chunk_distance(chunk, camera) <= limit),
{
    proof {
        crate::client_world::lemma_squares(
            chunk.x - camera.x,
            chunk.y - camera.y,
            chunk.z - camera.z,
        );
    }
    let distance = chunk.distance_squared(camera);
    distance as i32 <= limit
}

/// A chunk that is drawn, and whether in detail.
#[derive(Copy, Clone)]
pub struct ChunkInFrame {
    pub chunk: ChunkPos,
    pub is_detailed: bool,
}

/// The known ones among the first `n` of several positions, each with whether its shadow is
/// detailed.
pub open spec fn shadows<F, B>(
    world: crate::client_world::WorldModel<F, B>,
    camera: ChunkPos,
    positions: Seq<ChunkPos>,
    n: int,
) -> Seq<ChunkInFrame>
    decreases n,
{
    if n <= 0 {
        Seq::empty()
    } else {
        let before = shadows(world, camera, positions, n - 1);
        if world.has(positions[n - 1]) {
            before.push(
                ChunkInFrame {
                    chunk: positions[n - 1],
                    is_detailed: chunk_distance(positions[n - 1], camera) <= SHADOW_DETAIL_DISTANCE,
                },
            )
        } else {
            before
        }
    }
}

/// Whether a camera is so far from the border of the world that all chunks around it exist.
pub open spec fn has_surroundings(camera: ChunkPos) -> bool {
    &&& -32763 <= camera.x <= 32761
    &&& -32763 <= camera.y <= 32761
    &&& -32763 <= camera.z <= 32761
}

/// The box of the chunks that throw shadows.
pub open spec fn shadow_box(camera: ChunkPos) -> crate::aabb::AABB<i16> {
    crate::aabb::AABB {
        min: Vec3 {
            x: (camera.x - 5) as i16,
            y: (camera.y - 5) as i16,
            z: (camera.z - 5) as i16,
        },
        max: Vec3 {
            x: (camera.x + 5) as i16,
            y: (camera.y + 5) as i16,
            z: (camera.z + 5) as i16,
        },
    }
}

/// The chunks that throw shadows: the known ones around the camera, in the order in which a box is
/// walked.
pub fn shadow_chunks<F, B>(world: &ClientWorld<F, B>, camera: ChunkPos) -> (r: Vec<ChunkInFrame>)
    requires
        world.wf(),
        has_surroundings(camera),
    ensures
        exists|positions: Seq<ChunkPos>| #[trigger]
            is_walk(positions, shadow_box(camera)) && r@ == shadows(
                world@,
                camera,
                positions,
                positions.len() as int,
            ),
{
    let min = Vec3 {
        x: camera.x - SHADOW_DISTANCE,
        y: camera.y - SHADOW_DISTANCE,
        z: camera.z - SHADOW_DISTANCE,
    };
    let max = Vec3 {
        x: camera.x + SHADOW_DISTANCE,
        y: camera.y + SHADOW_DISTANCE,
        z: camera.z + SHADOW_DISTANCE,
    };
    let bb = crate::aabb::AABB { min, max };
    assert(bb == shadow_box(camera));
    let positions = bb.points();
    assert forall|i: int| 0 <= i < positions@.len() implies bb.spans(#[trigger] positions@[i]) by {
        assert(positions@.contains(positions@[i]));
    }
    let mut r: Vec<ChunkInFrame> = Vec::new();
    let mut i: usize = 0;
    while i < positions.len()
        invariant
            i <= positions@.len(),
            world.wf(),
            has_surroundings(camera),
            bb == shadow_box(camera),
            is_walk(positions@, bb),
            r@ == shadows(world@, camera, positions@, i as int),
        decreases positions@.len() - i,
    {
        let chunk = positions[i];
        let key = crate::client_world::chunk_key(chunk);
        if world.chunks.contains_key(key) {
            assert(bb.spans(positions@[i as int]));
            proof {
                lemma_near_box(chunk, camera);
                assert(world@.chunks.contains_key(key));
            }
            r.push(
                ChunkInFrame {
                    chunk,
                    is_detailed: is_detailed(chunk, camera, SHADOW_DETAIL_DISTANCE),
                },
            );
        } else {
            assert(!world@.chunks.contains_key(key));
        }
        i += 1;
    }
    assert(is_walk(positions@, shadow_box(camera)));
    r
}

proof fn lemma_near_box(chunk: ChunkPos, camera: ChunkPos)
    requires
        -5 <= chunk.x - camera.x <= 5,
        -5 <= chunk.y - camera.y <= 5,
        -5 <= chunk.z - camera.z <= 5,
    ensures
        near(chunk, camera),
{
    let x = chunk.x - camera.x;
    let y = chunk.y - camera.y;
    let z = chunk.z - camera.z;
    assert(x * x <= 25) by (nonlinear_arith)
        requires
            -5 <= x <= 5,
    ;
    assert(y * y <= 25) by (nonlinear_arith)
        requires
            -5 <= y <= 5,
    ;
    assert(z * z <= 25) by (nonlinear_arith)
        requires
            -5 <= z <= 5,
    ;
}

/// Whether a list holds the positions of a box, in the order of the walk.
pub open spec fn is_walk(positions: Seq<ChunkPos>, bb: crate::aabb::AABB<i16>) -> bool {
    &&& positions.len() == bb.volume()
    &&& forall|i: int|
        0 <= i < positions.len() ==> bb.spans(#[trigger] positions[i]) && bb.rank(positions[i]) == i
}

/// Whether the details of a chunk in view are drawn.
pub fn draws_details(chunk: ChunkPos, camera: ChunkPos) -> (r: bool)
    requires
        near(chunk, camera),
    ensures
        r == (chunk_distance(chunk, camera) <= DETAIL_DISTANCE),
{
    is_detailed(chunk, camera, DETAIL_DISTANCE)
}

/// The chunks that throw shadows are the known ones, each with details if it lies at the camera or
/// has at least an edge in common with it.
pub proof fn law_shadows<F, B>(
    world: crate::client_world::WorldModel<F, B>,
    camera: ChunkPos,
    positions: Seq<ChunkPos>,
    n: int,
)
    requires
        0 <= n <= positions.len(),
    ensures
        forall|k: int|
            0 <= k < shadows(world, camera, positions, n).len() ==> {
                let shadow = #[trigger] shadows(world, camera, positions, n)[k];
                &&& world.has(shadow.chunk)
                &&& positions.contains(shadow.chunk)
                &&& shadow.is_detailed <==> chunk_distance(shadow.chunk, camera) <= 2
            },
        forall|i: int|
            0 <= i < n && world.has(#[trigger] positions[i]) ==> is_thrown(
                shadows(world, camera, positions, n),
                positions[i],
            ),
    decreases n,
{
    if n > 0 {
        law_shadows(world, camera, positions, n - 1);
        let before = shadows(world, camera, positions, n - 1);
        let all = shadows(world, camera, positions, n);
        assert forall|i: int| 0 <= i < n && world.has(#[trigger] positions[i]) implies is_thrown(
            all,
            positions[i],
        ) by {
            if i < n - 1 {
                let k = choose|k: int| 0 <= k < before.len() && (#[trigger] before[k]).chunk == positions[i];
                assert(all[k].chunk == positions[i]);
            } else {
                assert(all[all.len() - 1].chunk == positions[i]);
            }
        }
    }
}

/// Whether a chunk is among those that throw shadows.
pub open spec fn is_thrown(shadows: Seq<ChunkInFrame>, chunk: ChunkPos) -> bool {
    exists|k: int| 0 <= k < shadows.len() && (#[trigger] shadows[k]).chunk == chunk
}

/// Chunks throw shadows up to five chunks away on every axis.
pub proof fn law_shadow_box(camera: ChunkPos, chunk: ChunkPos)
    requires
        has_surroundings(camera),
    ensures
        shadow_box(camera).spans(chunk) <==> -5 <= chunk.x - camera.x <= 5 && -5 <= chunk.y - camera.y
            <= 5 && -5 <= chunk.z - camera.z <= 5,
        shadow_box(camera).spans(camera),
{
}

/// Details are shown up to five chunks away and not six.
pub proof fn law_details(chunk: ChunkPos, camera: ChunkPos)
    ensures
        chunk.y == camera.y && chunk.z == camera.z ==> (chunk_distance(chunk, camera) <= DETAIL_DISTANCE
            <==> -5 <= chunk.x - camera.x <= 5),
        chunk_distance(chunk, camera) == (chunk.x - camera.x) * (chunk.x - camera.x) + (chunk.y
            - camera.y) * (chunk.y - camera.y) + (chunk.z - camera.z) * (chunk.z - camera.z),
{
    let d = chunk.x - camera.x;
    assert(-5 <= d <= 5 <==> d * d <= 25) by (nonlinear_arith);
}

} // verus!
