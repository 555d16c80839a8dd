//! Meshes, and the pool of buffers that chunk meshes are uploaded to.

use vstd::layout::size_of;
use vstd::prelude::*;

verus! {

/// How wide the indices of an uploaded mesh are.
#[derive(Copy, Clone, PartialEq, Eq, Structural, Debug)]
pub enum IndexFormat {
    Uint16,
    Uint32,
}

impl IndexFormat {
    /// The bytes of an index.
    pub open spec fn width(self) -> int {
        match self {
            IndexFormat::Uint16 => 2,
            IndexFormat::Uint32 => 4,
        }
    }

    fn bytes(self) -> (r: usize)
        ensures
            r == self.width(),
    {
        match self {
            IndexFormat::Uint16 => 2,
            IndexFormat::Uint32 => 4,
        }
    }
}

/// Vertices, and the triangles between them.
pub struct Mesh<T> {
    pub vertices: Vec<T>,
    pub indices: Vec<u32>,
}

/// The indices of two triangles that make up the quad of the vertices `first..first + 4`, in the
/// order of `corners`.
pub open spec fn quad_indices(first: int, corners: Seq<int>) -> Seq<u32> {
    corners.map_values(|corner: int| (first + corner) as u32)
}

/// The triangles of a quad whose corners are given in order around it.
pub open spec fn quad_around() -> Seq<int> {
    seq![0, 3, 2, 2, 1, 0]
}

/// The triangles of a quad whose corners are given row by row.
pub open spec fn quad_by_rows() -> Seq<int> {
    seq![0, 1, 3, 3, 2, 0]
}

/// Whether every index belongs to one of `count` vertices.
pub open spec fn within(indices: Seq<u32>, count: nat) -> bool {
    forall|i: int| 0 <= i < indices.len() ==> (#[trigger] indices[i]) < count
}

/// `indices`, moved by `by` vertices.
pub open spec fn shifted(indices: Seq<u32>, by: int) -> Seq<u32> {
    indices.map_values(|index: u32| (index + by) as u32)
}

impl<T> Mesh<T> {
    /// Whether every index belongs to a vertex.
    pub open spec fn wf(self) -> bool {
        within(self.indices@, self.vertices@.len())
    }

    /// The width of the indices once the mesh is uploaded.
    pub open spec fn index_format(self) -> IndexFormat {
        if self.vertices@.len() <= 65535 {
            IndexFormat::Uint16
        } else {
            IndexFormat::Uint32
        }
    }

    /// The bytes of the vertices.
    pub open spec fn vertex_bytes(self) -> int {
        (self.vertices@.len() * size_of::<T>()) as int
    }

    /// The bytes of the indices.
    pub open spec fn index_bytes(self) -> int {
        self.indices@.len() * self.index_format().width()
    }

    /// Adds a vertex and returns its index.
    pub fn add_vertex(&mut self, vertex: T) -> (r: u32)
        requires
            old(self).vertices@.len() < u32::MAX,
        ensures
            r == old(self).vertices@.len(),
            final(self).vertices@ == old(self).vertices@.push(vertex),
            final(self).indices@ == old(self).indices@,
    {
        self.vertices.push(vertex);
        self.vertices.len() as u32 - 1
    }

    /// Adds an index.
    pub fn add_index(&mut self, index: u32)
        ensures
            final(self).indices@ == old(self).indices@.push(index),
            final(self).vertices@ == old(self).vertices@,
    {
        self.indices.push(index);
    }

    /// Adds the vertices and triangles of another mesh.
    pub fn append_mesh(&mut self, other_mesh: Mesh<T>)
        requires
            old(self).vertices@.len() + other_mesh.vertices@.len() <= u32::MAX,
            other_mesh.wf(),
        ensures
            final(self).vertices@ == old(self).vertices@ + other_mesh.vertices@,
            final(self).indices@ == old(self).indices@ + shifted(
                other_mesh.indices@,
                old(self).vertices@.len() as int,
            ),
    {
        let mut other_mesh = other_mesh;
        let ghost other = other_mesh;
        let vertex_count = self.vertices.len() as u32;
        self.vertices.append(&mut other_mesh.vertices);
        let mut i: usize = 0;
        while i < other_mesh.indices.len()
            invariant
                i <= other.indices@.len(),
                other_mesh.indices@ == other.indices@,
                other.wf(),
                vertex_count == old(self).vertices@.len(),
                old(self).vertices@.len() + other.vertices@.len() <= u32::MAX,
                self.vertices@ == old(self).vertices@ + other.vertices@,
                self.indices@ == old(self).indices@ + shifted(
                    other.indices@.take(i as int),
                    vertex_count as int,
                ),
            decreases other.indices@.len() - i,
        {
            let index = other_mesh.indices[i];
            self.indices.push(index + vertex_count);
            i += 1;
            assert(shifted(other.indices@.take(i as int), vertex_count as int) =~= shifted(
                other.indices@.take(i - 1),
                vertex_count as int,
            ).push((index + vertex_count) as u32));
            assert(self.indices@ =~= old(self).indices@ + shifted(
                other.indices@.take(i as int),
                vertex_count as int,
            ));
        }
        assert(other.indices@.take(i as int) =~= other.indices@);
    }

    /// Whether there is nothing to draw.
    pub fn is_empty(&self) -> (r: bool)
        ensures
            r == (self.indices@.len() == 0),
    {
        self.indices.len() == 0
    }

    /// The bytes of the vertices and of the indices, and the width of an index.
    pub fn get_data_size(&self) -> (r: (usize, usize, IndexFormat))
        requires
            self.vertex_bytes() <= usize::MAX,
            self.index_bytes() <= usize::MAX,
        ensures
            r.0 == self.vertex_bytes(),
            r.1 == self.index_bytes(),
            r.2 == self.index_format(),
    {
        let index_format = if self.vertices.len() <= 65535 {
            IndexFormat::Uint16
        } else {
            IndexFormat::Uint32
        };
        let vertex_buffer_size = self.vertices.len() * std::mem::size_of::<T>();
        (vertex_buffer_size, self.indices.len() * index_format.bytes(), index_format)
    }

    /// The indices of a mesh that is uploaded with narrow ones.
    pub fn narrow_indices(&self) -> (r: Vec<u16>)
        requires
            self.wf(),
            self.index_format() == IndexFormat::Uint16,
        ensures
            r@.len() == self.indices@.len(),
            forall|i: int| 0 <= i < r@.len() ==> #[trigger] r@[i] == self.indices@[i],
    {
        let mut r: Vec<u16> = Vec::new();
        let mut i: usize = 0;
        while i < self.indices.len()
            invariant
                self.wf(),
                self.index_format() == IndexFormat::Uint16,
                i <= self.indices@.len(),
                r@.len() == i,
                forall|j: int| 0 <= j < i ==> #[trigger] r@[j] == self.indices@[j],
            decreases self.indices@.len() - i,
        {
            let index = self.indices[i];
            assert(self.indices@[i as int] < self.vertices@.len());
            r.push(index as u16);
            i += 1;
        }
        r
    }
}

/// The indices of `triangles` triangles that fan out from the vertex `first`.
pub open spec fn fan_indices(first: int, triangles: int) -> Seq<u32>
    decreases triangles,
{
    if triangles <= 0 {
        Seq::empty()
    } else {
        fan_indices(first, triangles - 1) + seq![
            first as u32,
            (first + triangles) as u32,
            (first + triangles + 1) as u32,
        ]
    }
}

impl<T: Copy> Mesh<T> {
    /// Adds a quad, given by its corners in order around it.
    pub fn add_quad(&mut self, vertices: [T; 4])
        requires
            old(self).vertices@.len() + 4 <= u32::MAX,
        ensures
            final(self).vertices@ == old(self).vertices@ + vertices@,
            final(self).indices@ == old(self).indices@ + quad_indices(
                old(self).vertices@.len() as int,
                quad_around(),
            ),
    {
        let a = self.add_vertex(vertices[0]);
        let b = self.add_vertex(vertices[1]);
        let c = self.add_vertex(vertices[2]);
        let d = self.add_vertex(vertices[3]);
        self.add_index(a);
        self.add_index(d);
        self.add_index(c);
        self.add_index(c);
        self.add_index(b);
        self.add_index(a);
        proof {
            assert(self.vertices@ =~= old(self).vertices@ + vertices@);
            assert(self.indices@ =~= old(self).indices@ + quad_indices(
                old(self).vertices@.len() as int,
                quad_around(),
            ));
        }
    }

    /// Adds a rectangle, given by its corners row by row.
    pub fn add_rect(&mut self, vertices: [T; 4])
        requires
            old(self).vertices@.len() + 4 <= u32::MAX,
        ensures
            final(self).vertices@ == old(self).vertices@ + vertices@,
            final(self).indices@ == old(self).indices@ + quad_indices(
                old(self).vertices@.len() as int,
                quad_by_rows(),
            ),
    {
        let a = self.add_vertex(vertices[0]);
        let b = self.add_vertex(vertices[1]);
        let c = self.add_vertex(vertices[2]);
        let d = self.add_vertex(vertices[3]);
        self.add_index(a);
        self.add_index(b);
        self.add_index(d);
        self.add_index(d);
        self.add_index(c);
        self.add_index(a);
        proof {
            assert(self.vertices@ =~= old(self).vertices@ + vertices@);
            assert(self.indices@ =~= old(self).indices@ + quad_indices(
                old(self).vertices@.len() as int,
                quad_by_rows(),
            ));
        }
    }

    /// Adds a convex polygon as a fan of triangles around its first corner; one with less than three
    /// corners is left out.
    pub fn add_polygon(&mut self, polygon: &Vec<T>)
        requires
            old(self).vertices@.len() + polygon@.len() <= u32::MAX,
        ensures
            if polygon@.len() < 3 {
                *final(self) == *old(self)
            } else {
                &&& final(self).vertices@ == old(self).vertices@ + polygon@
                &&& final(self).indices@ == old(self).indices@ + fan_indices(
                    old(self).vertices@.len() as int,
                    polygon@.len() - 2,
                )
            },
    {
        if polygon.len() < 3 {
            return ;
        }
        let first = self.vertices.len() as u32;
        let mut i: usize = 0;
        while i < polygon.len()
            invariant
                i <= polygon@.len(),
                old(self).vertices@.len() + polygon@.len() <= u32::MAX,
                self.vertices@ == old(self).vertices@ + polygon@.take(i as int),
                self.indices@ == old(self).indices@,
            decreases polygon@.len() - i,
        {
            self.add_vertex(polygon[i]);
            i += 1;
            assert(self.vertices@ =~= old(self).vertices@ + polygon@.take(i as int));
        }
        assert(polygon@.take(i as int) =~= polygon@);
        let mut corner: usize = 1;
        assert(self.indices@ =~= old(self).indices@ + fan_indices(first as int, 0));
        while corner < polygon.len() - 1
            invariant
                1 <= corner <= polygon@.len() - 1,
                first + polygon@.len() <= u32::MAX,
                self.vertices@ == old(self).vertices@ + polygon@,
                self.indices@ == old(self).indices@ + fan_indices(first as int, corner - 1),
            decreases polygon@.len() - corner,
        {
            let at = corner as u32;
            self.add_index(first);
            self.add_index(first + at);
            self.add_index(first + at + 1);
            corner += 1;
            assert(self.indices@ =~= old(self).indices@ + fan_indices(first as int, corner - 1));
        }
    }
}

impl<T> Default for Mesh<T> {
    fn default() -> (r: Mesh<T>)
        ensures
            r.vertices@.len() == 0,
            r.indices@.len() == 0,
    {
        Mesh { vertices: Vec::new(), indices: Vec::new() }
    }
}

/// Quads, rectangles, polygons and whole meshes keep every index within the vertices.
pub proof fn law_mesh_stays_whole<T>(
    vertices: Seq<T>,
    indices: Seq<u32>,
    more: Seq<T>,
    more_indices: Seq<u32>,
)
    requires
        vertices.len() + more.len() <= u32::MAX,
        within(indices, vertices.len()),
        within(more_indices, more.len()),
    ensures
        within(indices + shifted(more_indices, vertices.len() as int), (vertices + more).len()),
        more.len() == 4 ==> within(
            indices + quad_indices(vertices.len() as int, quad_around()),
            (vertices + more).len(),
        ),
        more.len() == 4 ==> within(
            indices + quad_indices(vertices.len() as int, quad_by_rows()),
            (vertices + more).len(),
        ),
        more.len() >= 3 ==> within(
            indices + fan_indices(vertices.len() as int, more.len() - 2),
            (vertices + more).len(),
        ),
{
    if more.len() >= 3 {
        lemma_fan_within(vertices.len() as int, more.len() - 2, (vertices.len() + more.len()) as nat);
    }
}

proof fn lemma_fan_within(first: int, triangles: int, count: nat)
    requires
        0 <= first,
        first + triangles + 1 < count <= u32::MAX,
    ensures
        within(fan_indices(first, triangles), count),
    decreases triangles,
{
    if triangles > 0 {
        lemma_fan_within(first, triangles - 1, count);
    }
}

/// How an uploaded mesh lies in its buffer.
#[derive(Copy, Clone)]
pub struct GPUMeshRenderData {
    pub vertex_length: u64,
    pub index_count: u32,
    pub index_format: IndexFormat,
}

impl GPUMeshRenderData {
    /// The bytes of the mesh.
    pub fn memory_size(&self) -> (r: usize)
        requires
            self.vertex_length + self.index_format.width() * self.index_count <= usize::MAX,
        ensures
            r == self.vertex_length + self.index_format.width() * self.index_count,
    {
        proof {
            assert(self.index_format.width() * self.index_count >= 0) by (nonlinear_arith)
                requires
                    self.index_format.width() >= 0,
            ;
        }
        self.vertex_length as usize + self.index_format.bytes() * self.index_count as usize
    }
}

/// A buffer of the graphics card and its size.
pub struct SizedBuffer<B> {
    pub buffer: B,
    pub size: u64,
}

/// A mesh on the graphics card, or nothing.
pub struct GPUMesh<B> {
    pub buffer: Option<SizedBuffer<B>>,
    pub render_data: Option<GPUMeshRenderData>,
}

/// What has to happen for a mesh to be uploaded to a buffer.
#[derive(Copy, Clone, PartialEq, Eq, Structural, Debug)]
pub enum Upload {
    /// There is nothing to draw.
    Clear,
    /// A new buffer is needed, with room for that many bytes.
    Allocate(u64),
    /// The buffer has room.
    Write,
}

impl<B> GPUMesh<B> {
    /// Nothing.
    pub fn empty() -> (r: GPUMesh<B>)
        ensures
            r == (GPUMesh::<B> { buffer: None, render_data: None }),
    {
        GPUMesh { buffer: None, render_data: None }
    }

    /// Takes the mesh out.
    pub fn take(&mut self) -> (r: GPUMesh<B>)
        ensures
            r == *old(self),
            *final(self) == (GPUMesh::<B> { buffer: None, render_data: None }),
    {
        GPUMesh { buffer: self.buffer.take(), render_data: self.render_data.take() }
    }

    /// The least size of a buffer with room for that many bytes.
    pub open spec fn aligned(size: int) -> int {
        if size <= 4 {
            4
        } else {
            (size + 3) / 4 * 4
        }
    }

    /// The least size of a buffer with room for that many bytes: buffers are made of whole words.
    pub fn size_align(unpadded_size: u64) -> (r: u64)
        requires
            unpadded_size + 3 <= u64::MAX,
        ensures
            r == Self::aligned(unpadded_size as int),
    {
        let align_mask: u64 = 3;
        let sum: u64 = unpadded_size + align_mask;
        proof {
            assert(sum & !3u64 == sum / 4 * 4) by (bit_vector);
        }
        let padded = sum & !align_mask;
        if padded < 4 {
            4
        } else {
            padded
        }
    }

    /// The size of the buffer that a mesh of `data_size` bytes gets, at least `min_size`; `None` if
    /// it needs none.
    pub fn allocation_size(is_empty: bool, data_size: u64, min_size: u64) -> (r: Option<u64>)
        requires
            data_size + 3 <= u64::MAX,
            min_size + 3 <= u64::MAX,
        ensures
            r == if is_empty && min_size == 0 {
                None::<u64>
            } else {
                Some(
                    Self::aligned(
                        if data_size >= min_size {
                            data_size as int
                        } else {
                            min_size as int
                        },
                    ) as u64,
                )
            },
            r matches Some(size) ==> size >= data_size && size >= min_size,
    {
        if is_empty && min_size == 0 {
            return None;
        }
        let unpadded_size = if data_size >= min_size {
            data_size
        } else {
            min_size
        };
        Some(Self::size_align(unpadded_size))
    }

    /// What has to happen for a mesh of `total_size` bytes to be uploaded here.
    pub fn upload_plan(&self, is_empty: bool, total_size: u64) -> (r: Upload)
        requires
            total_size + total_size / 2 <= u64::MAX,
        ensures
            r == if is_empty {
                Upload::Clear
            } else {
                match self.buffer {
                    None => Upload::Allocate(0),
                    Some(buffer) => if buffer.size < total_size {
                        Upload::Allocate((total_size + total_size / 2) as u64)
                    } else {
                        Upload::Write
                    },
                }
            },
    {
        if is_empty {
            return Upload::Clear;
        }
        match &self.buffer {
            None => Upload::Allocate(0),
            Some(buffer) => if buffer.size < total_size {
                Upload::Allocate(total_size + total_size / 2)
            } else {
                Upload::Write
            },
        }
    }
}

/// The smallest size of a pooled buffer.
pub const MIN_BUFFER_SIZE: u64 = 65536;

/// The greatest bucket of the pool.
pub const LAST_BUCKET: usize = 20;

/// The size of the buffers of a bucket.
pub open spec fn bucket_size(bucket: nat) -> int
    decreases bucket,
{
    if bucket == 0 {
        MIN_BUFFER_SIZE as int
    } else {
        4 * bucket_size((bucket - 1) as nat)
    }
}

/// Whether a buffer of that size belongs to the bucket.
pub open spec fn belongs(size: int, bucket: nat) -> bool {
    &&& size <= bucket_size(bucket)
    &&& bucket > 0 ==> bucket_size((bucket - 1) as nat) < size
}

proof fn lemma_bucket_sizes_grow(a: nat, b: nat)
    requires
        a <= b,
    ensures
        0 < bucket_size(a) <= bucket_size(b),
    decreases b,
{
    if a < b {
        lemma_bucket_sizes_grow(a, (b - 1) as nat);
    } else if b > 0 {
        lemma_bucket_sizes_grow((a - 1) as nat, (b - 1) as nat);
    }
}

/// Every size belongs to at most one bucket.
pub proof fn law_bucket_unique(size: int, a: nat, b: nat)
    requires
        belongs(size, a),
        belongs(size, b),
    ensures
        a == b,
{
    if a < b {
        lemma_bucket_sizes_grow(a, (b - 1) as nat);
    }
    if b < a {
        lemma_bucket_sizes_grow(b, (a - 1) as nat);
    }
}

/// The greatest buffer that the pool can hold.
pub open spec fn max_buffer_size() -> int {
    bucket_size(LAST_BUCKET as nat)
}

proof fn lemma_max_buffer_size()
    ensures
        max_buffer_size() == 0x100_0000_0000_0000,
{
    reveal_with_fuel(bucket_size, 21);
}

/// How many buffers of each of the first buckets are made in advance.
pub open spec fn preallocated(bucket: int) -> int {
    if bucket == 0 || bucket == 1 {
        40
    } else if bucket == 2 {
        20
    } else {
        4
    }
}

/// Where the buffer for a mesh comes from.
pub enum Placement<B> {
    /// The mesh is uploaded to this buffer.
    Upload(GPUMesh<B>),
    /// A new buffer of that size is made.
    Allocate(u64),
    /// There is nothing to draw.
    Nothing,
}

/// Buffers that no chunk uses, by size.
pub struct ChunkBufferPool<B> {
    pub buffers: Vec<Vec<GPUMesh<B>>>,
}

impl<B> ChunkBufferPool<B> {
    /// The meshes of a bucket.
    pub open spec fn bucket(self, id: int) -> Seq<GPUMesh<B>> {
        if 0 <= id < self.buffers@.len() {
            self.buffers@[id]@
        } else {
            Seq::empty()
        }
    }

    /// Whether every buffer lies in the bucket that it belongs to.
    pub open spec fn wf(self) -> bool {
        forall|id: int, i: int|
            0 <= id && 0 <= i < self.bucket(id).len() ==> {
                &&& (#[trigger] self.bucket(id)[i]).buffer is Some
                &&& belongs(self.bucket(id)[i].buffer->0.size as int, id as nat)
            }
    }

    /// Whether two pools hold the same buffers.
    pub open spec fn same_buckets(before: ChunkBufferPool<B>, after: ChunkBufferPool<B>) -> bool {
        forall|id: int| #[trigger] after.bucket(id) == before.bucket(id)
    }

    /// Whether two pools differ at most in one bucket.
    pub open spec fn same_but(
        before: ChunkBufferPool<B>,
        after: ChunkBufferPool<B>,
        bucket: nat,
    ) -> bool {
        forall|id: int| id != bucket ==> #[trigger] after.bucket(id) == before.bucket(id)
    }

    /// Whether `after` is `before` with the buffer of `mesh`, if it has one, last in its bucket.
    pub open spec fn reclaimed(
        before: ChunkBufferPool<B>,
        after: ChunkBufferPool<B>,
        mesh: GPUMesh<B>,
    ) -> bool {
        match mesh.buffer {
            None => Self::same_buckets(before, after),
            Some(buffer) => exists|bucket: nat| #[trigger]
                belongs(buffer.size as int, bucket) && Self::same_but(before, after, bucket)
                    && after.bucket(bucket as int) == before.bucket(bucket as int).push(mesh),
        }
    }

    /// Whether `r` is where a mesh of `total_size` bytes goes: nowhere if it is empty, else to the
    /// last buffer of its bucket, which leaves the pool, or to a new one if there is none.
    pub open spec fn allocated(
        before: ChunkBufferPool<B>,
        after: ChunkBufferPool<B>,
        is_empty: bool,
        total_size: int,
        r: Placement<B>,
    ) -> bool {
        if is_empty {
            r == Placement::<B>::Nothing && Self::same_buckets(before, after)
        } else {
            exists|bucket: nat| #[trigger]
                belongs(total_size, bucket) && Self::same_but(before, after, bucket) && if before.bucket(
                    bucket as int,
                ).len() == 0 {
                    &&& r == Placement::<B>::Allocate(bucket_size(bucket) as u64)
                    &&& after.bucket(bucket as int).len() == 0
                } else {
                    &&& r == Placement::Upload(before.bucket(bucket as int).last())
                    &&& after.bucket(bucket as int) == before.bucket(bucket as int).drop_last()
                }
        }
    }

    /// Whether `r` is where the new mesh of a chunk goes: to the chunk's own buffer if it fits, else to
    /// one of the pool, which takes the chunk's back.
    pub open spec fn placed(
        before: ChunkBufferPool<B>,
        after: ChunkBufferPool<B>,
        is_empty: bool,
        total_size: int,
        mesh: GPUMesh<B>,
        r: Placement<B>,
    ) -> bool {
        if mesh.buffer is Some && total_size <= mesh.buffer->0.size {
            r == Placement::Upload(mesh) && Self::same_buckets(before, after)
        } else {
            exists|between: ChunkBufferPool<B>| #[trigger]
                Self::reclaimed(before, between, mesh) && Self::allocated(
                    between,
                    after,
                    is_empty,
                    total_size,
                    r,
                )
        }
    }

    /// Makes buckets so that there are `count` of them.
    fn grow(&mut self, count: usize)
        ensures
            final(self).buffers@.len() == if old(self).buffers@.len() < count {
                count as nat
            } else {
                old(self).buffers@.len()
            },
            forall|id: int| #[trigger] final(self).bucket(id) == old(self).bucket(id),
    {
        while self.buffers.len() < count
            invariant
                old(self).buffers@.len() <= self.buffers@.len(),
                self.buffers@.len() <= count || self.buffers@.len() == old(self).buffers@.len(),
                forall|id: int| #[trigger] self.bucket(id) == old(self).bucket(id),
            decreases count - self.buffers@.len(),
        {
            let ghost before = *self;
            self.buffers.push(Vec::new());
            assert forall|id: int| #[trigger] self.bucket(id) == before.bucket(id) by {
                assert(self.bucket(id) =~= before.bucket(id));
            }
        }
    }

    /// Prepares a frame: there are four buckets after it, and the first of them that holds less
    /// than it should is due for a new buffer of the returned size.
    pub fn tick(&mut self) -> (r: Option<(usize, u64)>)
        requires
            old(self).wf(),
        ensures
            final(self).wf(),
            final(self).buffers@.len() == 4,
            forall|id: int| 0 <= id < 4 ==> #[trigger] final(self).bucket(id) == old(self).bucket(id),
            match r {
                Some((bucket, size)) => {
                    &&& bucket < 4
                    &&& old(self).bucket(bucket as int).len() < preallocated(bucket as int)
                    &&& forall|id: int|
                        0 <= id < bucket ==> (#[trigger] old(self).bucket(id)).len() >= preallocated(id)
                    &&& size == bucket_size(bucket as nat)
                },
                None => forall|id: int|
                    0 <= id < 4 ==> (#[trigger] old(self).bucket(id)).len() >= preallocated(id),
            },
    {
        self.grow(4);
        let ghost grown = *self;
        self.buffers.truncate(4);
        proof {
            assert forall|id: int| 0 <= id < 4 implies #[trigger] self.bucket(id) == old(self).bucket(
                id,
            ) by {
                assert(grown.bucket(id) == old(self).bucket(id));
            }
            assert forall|id: int, i: int| 0 <= id && 0 <= i < self.bucket(id).len() implies {
                &&& (#[trigger] self.bucket(id)[i]).buffer is Some
                &&& belongs(self.bucket(id)[i].buffer->0.size as int, id as nat)
            } by {
                assert(self.bucket(id)[i] == old(self).bucket(id)[i]);
            }
        }
        let sizes: [usize; 4] = [40, 40, 20, 4];
        let mut size: u64 = MIN_BUFFER_SIZE;
        let mut bucket: usize = 0;
        while bucket < 4
            invariant
                bucket <= 4,
                sizes@ == seq![40usize, 40, 20, 4],
                self.buffers@.len() == 4,
                self.wf(),
                forall|id: int| 0 <= id < 4 ==> #[trigger] self.bucket(id) == old(self).bucket(id),
                forall|id: int|
                    0 <= id < bucket ==> (#[trigger] old(self).bucket(id)).len() >= preallocated(id),
                size == bucket_size(bucket as nat),
                size <= 65536 * 256,
                bucket <= 0 ==> size <= 65536,
                bucket <= 1 ==> size <= 65536 * 4,
                bucket <= 2 ==> size <= 65536 * 16,
                bucket <= 3 ==> size <= 65536 * 64,
            decreases 4 - bucket,
        {
            assert(self.bucket(bucket as int) == old(self).bucket(bucket as int));
            if self.buffers[bucket].len() < sizes[bucket] {
                return Some((bucket, size));
            }
            size = size * 4;
            bucket += 1;
        }
        None
    }

    /// The bucket that a size belongs to, and the size of its buffers.
    pub fn get_data_index(buffer_size: u64) -> (r: (usize, u64))
        requires
            buffer_size <= max_buffer_size(),
        ensures
            r.0 <= LAST_BUCKET,
            belongs(buffer_size as int, r.0 as nat),
            r.1 == bucket_size(r.0 as nat),
    {
        let mut current_size: u64 = MIN_BUFFER_SIZE;
        let mut i: usize = 0;
        while buffer_size > current_size
            invariant
                i <= LAST_BUCKET,
                buffer_size <= max_buffer_size(),
                current_size == bucket_size(i as nat),
                i > 0 ==> bucket_size((i - 1) as nat) < buffer_size,
            decreases LAST_BUCKET - i,
        {
            proof {
                lemma_max_buffer_size();
                lemma_bucket_sizes_grow(i as nat, LAST_BUCKET as nat);
            }
            i += 1;
            current_size = current_size * 4;
        }
        (i, current_size)
    }

    /// Puts a mesh into a bucket.
    pub fn put(&mut self, bucket: usize, mesh: GPUMesh<B>)
        requires
            old(self).wf(),
            bucket <= LAST_BUCKET,
            mesh.buffer is Some,
            belongs(mesh.buffer->0.size as int, bucket as nat),
        ensures
            final(self).wf(),
            final(self).bucket(bucket as int) == old(self).bucket(bucket as int).push(mesh),
            forall|id: int|
                id != bucket ==> #[trigger] final(self).bucket(id) == old(self).bucket(id),
    {
        self.grow(bucket + 1);
        let ghost grown = *self;
        self.buffers[bucket].push(mesh);
        proof {
            assert forall|id: int| id != bucket implies #[trigger] self.bucket(id) == old(self).bucket(
                id,
            ) by {
                assert(grown.bucket(id) == old(self).bucket(id));
            }
            assert(grown.bucket(bucket as int) == old(self).bucket(bucket as int));
            assert forall|id: int, i: int| 0 <= id && 0 <= i < self.bucket(id).len() implies {
                &&& (#[trigger] self.bucket(id)[i]).buffer is Some
                &&& belongs(self.bucket(id)[i].buffer->0.size as int, id as nat)
            } by {
                if id == bucket && i == old(self).bucket(id).len() {
                } else {
                    assert(self.bucket(id)[i] == old(self).bucket(id)[i]);
                }
            }
        }
    }

    /// Takes back the buffer of a mesh, if it has one.
    pub fn reclaim(&mut self, mesh: GPUMesh<B>)
        requires
            old(self).wf(),
            mesh.buffer matches Some(buffer) ==> buffer.size <= max_buffer_size(),
        ensures
            final(self).wf(),
            Self::reclaimed(*old(self), *final(self), mesh),
    {
        let size = match &mesh.buffer {
            Some(buffer) => buffer.size,
            None => {
                return ;
            },
        };
        let bucket = Self::get_data_index(size).0;
        self.put(bucket, mesh);
        assert(belongs(mesh.buffer->0.size as int, bucket as nat));
    }

    /// A buffer for a mesh of `total_size` bytes: the last one of the bucket, or else a new one.
    pub fn allocate(&mut self, is_empty: bool, total_size: u64) -> (r: Placement<B>)
        requires
            old(self).wf(),
            total_size <= max_buffer_size(),
        ensures
            final(self).wf(),
            Self::allocated(*old(self), *final(self), is_empty, total_size as int, r),
    {
        if is_empty {
            return Placement::Nothing;
        }
        let (bucket, size) = Self::get_data_index(total_size);
        assert(belongs(total_size as int, bucket as nat));
        self.grow(bucket + 1);
        let ghost grown = *self;
        assert(grown.bucket(bucket as int) == old(self).bucket(bucket as int));
        let popped = self.buffers[bucket].pop();
        proof {
            assert forall|id: int| id != bucket implies #[trigger] self.bucket(id) == old(self).bucket(
                id,
            ) by {
                assert(grown.bucket(id) == old(self).bucket(id));
            }
            if old(self).bucket(bucket as int).len() > 0 {
                assert(self.bucket(bucket as int) =~= old(self).bucket(bucket as int).drop_last());
            }
            assert forall|id: int, i: int| 0 <= id && 0 <= i < self.bucket(id).len() implies {
                &&& (#[trigger] self.bucket(id)[i]).buffer is Some
                &&& belongs(self.bucket(id)[i].buffer->0.size as int, id as nat)
            } by {
                assert(self.bucket(id)[i] == old(self).bucket(id)[i]);
            }
        }
        match popped {
            Some(mesh) => Placement::Upload(mesh),
            None => Placement::Allocate(size),
        }
    }

    /// A buffer for the new mesh of a chunk: the chunk's own if the mesh fits, else one of the pool,
    /// which takes the chunk's back.
    pub fn allocate_or_reuse(&mut self, is_empty: bool, total_size: u64, mesh: GPUMesh<B>) -> (r:
        Placement<B>)
        requires
            old(self).wf(),
            total_size <= max_buffer_size(),
            mesh.buffer matches Some(buffer) ==> buffer.size <= max_buffer_size(),
        ensures
            final(self).wf(),
            Self::placed(*old(self), *final(self), is_empty, total_size as int, mesh, r),
    {
        let fits = match &mesh.buffer {
            Some(buffer) => total_size <= buffer.size,
            None => false,
        };
        if fits {
            return Placement::Upload(mesh);
        }
        self.reclaim(mesh);
        let ghost between = *self;
        let r = self.allocate(is_empty, total_size);
        assert(Self::reclaimed(*old(self), between, mesh));
        r
    }
}

impl<B> Default for ChunkBufferPool<B> {
    fn default() -> (r: ChunkBufferPool<B>)
        ensures
            r.wf(),
            r.buffers@.len() == 0,
    {
        ChunkBufferPool { buffers: Vec::new() }
    }
}

/// The corners of a unit square in order around it.
pub open spec fn square_around(corner: int) -> (int, int) {
    (if corner == 1 || corner == 2 {
        1
    } else {
        0int
    }, if corner >= 2 {
        1
    } else {
        0int
    })
}

/// The corners of a unit square row by row.
pub open spec fn square_by_rows(corner: int) -> (int, int) {
    (corner % 2, corner / 2)
}

/// Twice the area of a triangle, negative if its corners turn the other way round.
pub open spec fn turn(a: (int, int), b: (int, int), c: (int, int)) -> int {
    (b.0 - a.0) * (c.1 - a.1) - (b.1 - a.1) * (c.0 - a.0)
}

/// The two triangles of a quad turn the same way round, meet at a diagonal and make up the quad:
/// against the order of the corners where they are given around it, and with it where they are given
/// row by row.
pub proof fn law_quad_triangles()
    ensures
        ({
            let q = quad_around();
            &&& q.len() == 6
            &&& forall|i: int| 0 <= i < 6 ==> 0 <= #[trigger] q[i] < 4
            &&& q[0] == q[5] && q[2] == q[3] && q[0] == 0 && q[1] != q[4]
            &&& turn(square_around(q[0]), square_around(q[1]), square_around(q[2])) == -1
            &&& turn(square_around(q[3]), square_around(q[4]), square_around(q[5])) == -1
        }),
        ({
            let q = quad_by_rows();
            &&& q.len() == 6
            &&& forall|i: int| 0 <= i < 6 ==> 0 <= #[trigger] q[i] < 4
            &&& q[0] == q[5] && q[2] == q[3] && q[0] == 0 && q[1] != q[4]
            &&& turn(square_by_rows(q[0]), square_by_rows(q[1]), square_by_rows(q[2])) == 1
            &&& turn(square_by_rows(q[3]), square_by_rows(q[4]), square_by_rows(q[5])) == 1
        }),
{
    let a = quad_around();
    assert(a[0] == 0 && a[1] == 3 && a[2] == 2 && a[3] == 2 && a[4] == 1 && a[5] == 0);
    assert(turn((0, 0), (0, 1), (1, 1)) == -1) by (nonlinear_arith);
    assert(turn((1, 1), (1, 0), (0, 0)) == -1) by (nonlinear_arith);
    let r = quad_by_rows();
    assert(r[0] == 0 && r[1] == 1 && r[2] == 3 && r[3] == 3 && r[4] == 2 && r[5] == 0);
    assert(turn((0, 0), (1, 0), (1, 1)) == 1) by (nonlinear_arith);
    assert(turn((1, 1), (0, 1), (0, 0)) == 1) by (nonlinear_arith);
}

/// A quad behind other vertices is the quad at the beginning, moved by as many vertices.
pub proof fn law_quads_are_shifted(first: int, corners: Seq<int>, i: int)
    requires
        0 <= i < corners.len(),
        0 <= first + corners[i] <= u32::MAX,
    ensures
        quad_indices(first, corners).len() == corners.len(),
        quad_indices(first, corners)[i] - first == corners[i],
{
}

/// Moved indices keep their distance to those that they were.
pub proof fn law_shifted(indices: Seq<u32>, by_count: int, i: int)
    requires
        0 <= i < indices.len(),
        0 <= indices[i] + by_count <= u32::MAX,
    ensures
        shifted(indices, by_count).len() == indices.len(),
        shifted(indices, by_count)[i] - indices[i] == by_count,
{
}

/// Every triangle of a fan has the first corner and two neighbors, and the triangles follow one
/// another.
pub proof fn law_fan(first: int, triangles: int, t: int)
    requires
        0 <= first,
        0 <= t < triangles,
        first + triangles + 1 <= u32::MAX,
    ensures
        fan_indices(first, triangles).len() == 3 * triangles,
        fan_indices(first, triangles)[3 * t] == first,
        fan_indices(first, triangles)[3 * t + 1] == first + t + 1,
        fan_indices(first, triangles)[3 * t + 2] == first + t + 2,
    decreases triangles,
{
    if t < triangles - 1 {
        law_fan(first, triangles - 1, t);
    } else if triangles > 1 {
        law_fan(first, triangles - 1, 0);
    } else {
        assert(fan_indices(first, 0).len() == 0);
    }
}

/// Narrow indices reach every vertex, and wide ones are taken only where narrow ones do not.
pub proof fn law_index_width<T>(mesh: Mesh<T>)
    ensures
        mesh.index_format().width() == 2 || mesh.index_format().width() == 4,
        mesh.index_format().width() == 2 <==> mesh.vertices@.len() < 65536,
        mesh.index_bytes() == if mesh.vertices@.len() < 65536 {
            2 * mesh.indices@.len()
        } else {
            4 * mesh.indices@.len()
        },
{
}

/// A buffer has room for what it is made for, is made of at least one whole word, and wastes less
/// than a word.
pub proof fn law_aligned<B>(size: int)
    requires
        0 <= size,
    ensures
        GPUMesh::<B>::aligned(size) % 4 == 0,
        GPUMesh::<B>::aligned(size) >= 4,
        size <= GPUMesh::<B>::aligned(size),
        size > 0 ==> GPUMesh::<B>::aligned(size) < size + 4,
{
}

/// Every bucket holds buffers four times as large as the one before, and a size belongs to one only.
pub proof fn law_buckets(size: int, a: nat, b: nat)
    ensures
        bucket_size(0) == 65536,
        bucket_size(a + 1) == 4 * bucket_size(a),
        belongs(size, a) && belongs(size, b) ==> a == b,
        belongs(size, a) ==> size <= bucket_size(a),
        belongs(size, a + 1) ==> bucket_size(a + 1) < 4 * size,
{
    if a < b {
        lemma_bucket_sizes_grow(a, (b - 1) as nat);
    } else if b < a {
        lemma_bucket_sizes_grow(b, (a - 1) as nat);
    }
}

/// The smaller buffers are, the more of them are made in advance.
pub proof fn law_preallocated(bucket: int)
    requires
        0 <= bucket,
    ensures
        bucket < 2 ==> preallocated(bucket) == 40,
        bucket == 2 ==> preallocated(bucket) == 20,
        bucket > 2 ==> preallocated(bucket) == 4,
        preallocated(bucket + 1) <= preallocated(bucket),
{
}

} // verus!
