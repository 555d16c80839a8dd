use block_byte::block::{
    BlockColor, BlockEntry, BlockRotationMode, ItemAction, ItemBlockPlacement,
};
use block_byte::chunk_mesh::{
    blade_flags, build_chunk_mesh, knows_plants, surroundings, BlockRenderData, ChunkDraw,
    ChunkSurroundings,
};
use block_byte::client_game::ClientGame;
use block_byte::client_world::{
    chunk_key, has_neighbors, is_near, ClientWorld, ModifiedChunkEntry, ModifiedChunks, CHUNK_BLOCKS,
};
use block_byte::clip::{add_quad_clip, clip_against_edge, Corner, Cut, Span};
use block_byte::controls::ItemUse;
use block_byte::coord::{BlockPos, ChunkOffset, ChunkPos, Vec3};
use block_byte::face::{Axis, Face, FaceMap};
use block_byte::mesh::{
    ChunkBufferPool, GPUMesh, GPUMeshRenderData, IndexFormat, Mesh, Placement, SizedBuffer, Upload,
    MIN_BUFFER_SIZE,
};
use block_byte::net::{ClientItem, EntityAction, NetworkMessageC2S, NetworkMessageS2C};
use block_byte::palette::BlockPalette;
use block_byte::placing::PlacingRules;
use block_byte::plants::PlantList;
use block_byte::raycast::{
    aabb_raycast, block_raycast, pick_nearest, NextBorders, Passage, RayBlock, RayCastResult,
    RayDirection, RayHit, Slab,
};
use block_byte::registry::{Key, KeyGroup, LoadRegistry, PlantData, TextureData};
use block_byte::render_plan::{
    can_resize, draws_details, shadow_chunks, surface_result, SurfaceError, SurfaceState,
};
use block_byte::rotation::BlockRotation;
use block_byte::vertices::{find_local_face, get_block_rotation_face_vertices, TexCoords};
use block_byte::world::{
    BlockComponentStorage, ClientBlockComponentUpdate, ClientBlockDamage, ClientBlockPlants,
    ClientChunkBlockComponents,
};

fn block(x: i32, y: i32, z: i32) -> BlockPos {
    Vec3 { x, y, z }
}

fn chunk(x: i16, y: i16, z: i16) -> ChunkPos {
    Vec3 { x, y, z }
}

#[test]
fn meshes_grow() {
    let mut mesh: Mesh<u8> = Mesh::default();
    assert!(mesh.is_empty());
    mesh.add_quad([1, 2, 3, 4]);
    assert_eq!(mesh.vertices, vec![1, 2, 3, 4]);
    assert_eq!(mesh.indices, vec![0, 3, 2, 2, 1, 0]);
    let mut other: Mesh<u8> = Mesh::default();
    other.add_polygon(&vec![5, 6, 7, 8, 9]);
    assert_eq!(other.indices.len(), 9);
    other.add_polygon(&vec![5, 6]);
    assert_eq!(other.vertices.len(), 5);
    mesh.append_mesh(other);
    assert_eq!(mesh.vertices.len(), 9);
    assert!(mesh.indices.iter().all(|index| *index < 9));
    assert_eq!(mesh.narrow_indices().len(), 15);
    assert_eq!(mesh.get_data_size().1, 30);
    assert_eq!(mesh.get_data_size().2, IndexFormat::Uint16);
    assert_eq!(mesh.add_vertex(0), 9);
    mesh.add_index(9);
    assert_eq!(mesh.indices[15], 9);
}

#[test]
fn uploads_are_planned() {
    assert_eq!(GPUMesh::<u8>::size_align(5), 8);
    assert_eq!(GPUMesh::<u8>::size_align(8), 8);
    assert_eq!(GPUMesh::<u8>::allocation_size(true, 0, 0), None);
    assert_eq!(GPUMesh::<u8>::allocation_size(false, 10, 100), Some(100));
    let empty: GPUMesh<u8> = GPUMesh::empty();
    assert_eq!(empty.upload_plan(true, 0), Upload::Clear);
    assert_eq!(empty.upload_plan(false, 10), Upload::Allocate(0));
    let mut held = GPUMesh { buffer: Some(SizedBuffer { buffer: 0u8, size: 16 }), render_data: None };
    assert_eq!(held.upload_plan(false, 16), Upload::Write);
    assert_eq!(held.upload_plan(false, 20), Upload::Allocate(30));
    let taken = held.take();
    assert!(taken.buffer.is_some() && held.buffer.is_none());
    let data =
        GPUMeshRenderData { vertex_length: 100, index_count: 6, index_format: IndexFormat::Uint16 };
    assert_eq!(data.memory_size(), 112);
}

#[test]
fn buffers_are_pooled() {
    let mut pool: ChunkBufferPool<u8> = ChunkBufferPool::default();
    assert_eq!(ChunkBufferPool::<u8>::get_data_index(1).0, 0);
    assert_eq!(ChunkBufferPool::<u8>::get_data_index(MIN_BUFFER_SIZE).1, MIN_BUFFER_SIZE);
    let (bucket, size) = ChunkBufferPool::<u8>::get_data_index(MIN_BUFFER_SIZE + 1);
    assert_eq!((bucket, size), (1, MIN_BUFFER_SIZE * 4));
    assert!(matches!(pool.allocate(true, 0), Placement::Nothing));
    let needed = match pool.allocate(false, 100) {
        Placement::Allocate(size) => size,
        _ => panic!("there is no buffer yet"),
    };
    assert!(needed >= 100);
    pool.reclaim(GPUMesh {
        buffer: Some(SizedBuffer { buffer: 7u8, size: MIN_BUFFER_SIZE }),
        render_data: None,
    });
    match pool.allocate(false, 100) {
        Placement::Upload(mesh) => assert_eq!(mesh.buffer.unwrap().buffer, 7),
        _ => panic!("the buffer was put back"),
    }
    assert!(pool.tick().is_some());
}

#[test]
fn chunks_wait_by_distance() {
    let mut waiting = ModifiedChunks { entries: Vec::new() };
    for (distance, x) in [(9, 0), (1, 1), (4, 2)] {
        waiting.push(ModifiedChunkEntry { distance, chunk: chunk(x, 0, 0) });
    }
    assert_eq!(waiting.pop().unwrap().distance, 1);
    assert_eq!(waiting.pop().unwrap().distance, 4);
    assert_eq!(waiting.pop().unwrap().distance, 9);
    assert!(waiting.pop().is_none());
    assert_ne!(chunk_key(chunk(-1, 0, 0)), chunk_key(chunk(0, -1, 0)));
}

#[test]
fn distances_have_a_limit() {
    assert!(is_near(chunk(0, 0, 0), chunk(181, 2, 1)));
    assert!(!is_near(chunk(0, 0, 0), chunk(181, 2, 2)));
    assert!(!is_near(chunk(-32768, -32768, -32768), chunk(32767, 32767, 32767)));
    assert!(has_neighbors(chunk(32766, -32767, 0)));
    assert!(!has_neighbors(chunk(0, 32767, 0)));
    assert!(!has_neighbors(chunk(0, 0, -32768)));
}

#[test]
fn blocks_are_planned_and_placed() {
    let player = chunk(0, 0, 0);
    let mut game: ClientGame<i64, u8, u8, u8> =
        ClientGame::new(Key::from_index(0), 0, Vec3 { x: 0, y: 0, z: 0 }, 0);
    let load = NetworkMessageS2C::LoadChunk {
        position: player,
        blocks: air_chunk(),
        components: components(),
    };
    game.take_message(player, load, 0, 0, 0);
    let set = NetworkMessageS2C::SetBlock { position: block(3, 3, 3), block: stone() };
    game.take_message(player, set, 0, 0, 0);
    let held = ClientItem { item: Key::from_index(0), count: 2, description: String::new() };
    game.take_message(player, NetworkMessageS2C::HUDSlot { slot: 0, item: Some(held) }, 0, 0, 0);
    let placed = ItemBlockPlacement { block: Key::from_index(1), use_count: 2, research: None };
    let actions: Vec<ItemAction<u8>> = vec![ItemAction::Place(vec![placed])];
    let modes = vec![BlockRotationMode::Fixed, BlockRotationMode::Fixed];
    let hanging = vec![None, Some(Face::Down)];
    let supporting = vec![FaceMap::init(|_| false), FaceMap::init(|_| true)];
    let rules = PlacingRules {
        actions: &actions,
        modes: &modes,
        hanging: &hanging,
        supporting: &supporting,
        air: Key::from_index(0),
    };
    let fitness = FaceMap::init(|_| 0);
    let top = RayCastResult::Block(block(3, 3, 3), Face::Up);
    assert!(game.is_usable(&actions, top));
    let bare: Vec<ItemAction<u8>> = vec![ItemAction::Place(Vec::new())];
    assert!(!game.is_usable(&bare, top));
    assert!(game.is_usable(&bare, RayCastResult::Empty));
    assert!(!game.is_usable(&Vec::<ItemAction<u8>>::new(), RayCastResult::Empty));
    let planned = game.plan_block(&rules, top, &fitness).unwrap();
    assert_eq!(planned.position, block(3, 4, 3));
    assert_eq!(planned.block.numeric_id(), 1);
    assert!(planned.rotation == BlockRotation::FrontUp);
    assert!(game.are_blocks_known(planned.position, supporting.len()));
    assert!(!game.are_blocks_known(planned.position, 1));
    let placement = game.check_block(&rules, planned, false);
    assert!(placement.has_enough && placement.is_supported && placement.is_free);
    assert!(game.check_block(&rules, planned, true).is_occupied);
    let side = RayCastResult::Block(block(3, 3, 3), Face::Right);
    let beside = game.plan_block(&rules, side, &fitness).unwrap();
    assert!(!game.check_block(&rules, beside, false).is_supported);
    assert!(game.plan_block(&rules, RayCastResult::Empty, &fitness).is_none());

    let refused = game.use_held(&actions, top, placement, true, true);
    assert!(matches!(refused, ItemUse::Nothing));
    assert!(game.current_local_action.is_none());
    let used = game.use_held(&actions, top, placement, true, false);
    assert!(matches!(
        used,
        ItemUse::Use {
            action: EntityAction::Place,
            message: NetworkMessageC2S::ItemInteraction { variant: 0, .. },
        }
    ));
    assert!(game.current_local_action == Some(EntityAction::Place));
}

#[test]
fn messages_are_accepted_where_they_fit() {
    let player = chunk(0, 0, 0);
    let mut game: ClientGame<i64, u8, u8, u8> =
        ClientGame::new(Key::from_index(0), 0, Vec3 { x: 0, y: 0, z: 0 }, 0);
    let load = |position: ChunkPos| NetworkMessageS2C::LoadChunk {
        position,
        blocks: air_chunk(),
        components: components(),
    };
    let set = |position: BlockPos| NetworkMessageS2C::SetBlock { position, block: stone() };
    assert!(!game.accepts(player, &set(block(1, 1, 1))));
    assert!(!game.accepts(player, &load(chunk(200, 0, 0))));
    assert!(!game.accepts(player, &load(chunk(32767, 0, 0))));
    assert!(!game.accepts(
        player,
        &NetworkMessageS2C::LoadChunk {
            position: player,
            blocks: BlockPalette::filled(stone(), CHUNK_BLOCKS - 1),
            components: components(),
        }
    ));
    assert!(game.accepts(player, &load(player)));
    game.take_message(player, load(player), 0, 0, 0);
    assert!(game.accepts(player, &set(block(1, 1, 1))));
    game.world.schedule_meshes();
    assert!(!game.accepts(chunk(200, 0, 0), &set(block(1, 1, 1))));
    let update = NetworkMessageS2C::UpdateBlockComponents {
        chunk: player,
        offset: ChunkOffset::new(1, 1, 1),
        update: ClientBlockComponentUpdate::ClientBlockDamage(Some(ClientBlockDamage { damage: 3 })),
    };
    assert!(game.accepts(player, &update));
    assert!(game.accepts(player, &NetworkMessageS2C::HUDSlot { slot: 9, item: None }));
    assert!(!game.accepts(player, &NetworkMessageS2C::HUDSlot { slot: 10, item: None }));
}

fn stone() -> BlockEntry {
    BlockEntry::simple(Key::from_index(1))
}

fn components() -> ClientChunkBlockComponents<i64> {
    ClientChunkBlockComponents {
        damage: BlockComponentStorage::default(),
        plant: BlockComponentStorage::default(),
        machine: BlockComponentStorage::default(),
    }
}

fn air_chunk() -> BlockPalette {
    BlockPalette::filled(BlockEntry::simple(Key::from_index(0)), CHUNK_BLOCKS)
}

#[test]
fn worlds_rebuild_what_changed() {
    let player = chunk(0, 0, 0);
    let mut world: ClientWorld<i64, u8> = ClientWorld::new();
    world.load_chunk(player, chunk(0, 0, 0), air_chunk(), components());
    world.load_chunk(player, chunk(1, 0, 0), air_chunk(), components());
    let mut jobs = world.schedule_meshes();
    jobs.sort_by_key(|job| job.x);
    assert_eq!(jobs, vec![chunk(0, 0, 0), chunk(1, 0, 0)]);
    assert_eq!(world.chunk_mesh_queue_size, 2);
    assert!(world.schedule_meshes().is_empty());

    let version = world.chunks.get(chunk_key(chunk(0, 0, 0))).unwrap().version;
    let placed = world.receive_meshes(player, chunk(0, 0, 0), version, (true, 0), (true, 0));
    assert!(matches!(placed, Some((Placement::Nothing, Placement::Nothing))));
    let placed = world.receive_meshes(player, chunk(5, 5, 5), 0, (true, 0), (true, 0));
    assert!(placed.is_none());
    assert_eq!(world.chunk_mesh_queue_size, 0);

    world.set_block(player, block(31, 3, 3), stone());
    assert_eq!(world.get_block(block(31, 3, 3)).unwrap().block.numeric_id(), 1);
    assert_eq!(world.get_block(block(30, 3, 3)).unwrap().block.numeric_id(), 0);
    assert!(world.get_block(block(-1, 0, 0)).is_none());
    let jobs = world.schedule_meshes();
    assert!(jobs.contains(&chunk(0, 0, 0)));

    world.unload_chunk(chunk(0, 0, 0));
    assert!(world.get_block(block(31, 3, 3)).is_none());
}

#[test]
fn unloaded_chunks_give_their_buffers_back() {
    let player = chunk(0, 0, 0);
    let mut world: ClientWorld<i64, u8> = ClientWorld::new();
    world.load_chunk(player, player, air_chunk(), components());
    let mesh = |size: u64| GPUMesh {
        buffer: Some(SizedBuffer { buffer: 7, size }),
        render_data: None,
    };
    world.set_meshes(player, mesh(65536), mesh(131072));
    let pooled = |world: &ClientWorld<i64, u8>| -> usize {
        world.chunk_buffer_pool.buffers.iter().map(|bucket| bucket.len()).sum()
    };
    let before = pooled(&world);
    world.unload_chunk(player);
    assert_eq!(pooled(&world), before + 2);
    world.unload_chunk(player);
    assert_eq!(pooled(&world), before + 2);
}

#[test]
fn damage_changes_with_its_block() {
    let player = chunk(0, 0, 0);
    let mut world: ClientWorld<i64, u8> = ClientWorld::new();
    for position in [chunk(0, 0, 0), chunk(1, 0, 0)] {
        world.load_chunk(player, position, air_chunk(), components());
    }
    world.set_block(player, block(3, 0, 0), stone());
    for (x, damage) in [(3, 50), (4, 60), (35, 70)] {
        let (position, offset) = block(x, 0, 0).to_chunk_pos_offset();
        let update = ClientBlockComponentUpdate::ClientBlockDamage(Some(ClientBlockDamage { damage }));
        assert!(world.can_update_components(player, position, offset, &update));
        world.update_components(player, position, offset, update);
    }
    world.change_damage(|entry: BlockEntry, damage: i64| damage - 10 * entry.block.numeric_id() as i64);
    let damage = |x: i32| {
        let (position, offset) = block(x, 0, 0).to_chunk_pos_offset();
        let chunk = world.chunks.get(chunk_key(position)).unwrap();
        chunk.components.damage.get(offset).unwrap().damage
    };
    assert_eq!((damage(3), damage(4), damage(35)), (40, 60, 70));
    assert_eq!(world.get_block(block(3, 0, 0)).unwrap().block.numeric_id(), 1);
}

#[test]
fn chunks_see_their_loaded_neighbors() {
    let player = chunk(0, 0, 0);
    let mut world: ClientWorld<i64, u8> = ClientWorld::new();
    world.load_chunk(player, chunk(0, 0, 0), air_chunk(), components());
    let full = BlockPalette::filled(stone(), CHUNK_BLOCKS);
    world.load_chunk(player, chunk(0, 1, 0), full, components());
    let render_data = vec![BlockRenderData::Air];
    let textures: LoadRegistry<TextureData> = LoadRegistry::default();
    let around = surroundings(&world, chunk(0, 0, 0), &render_data, &textures).unwrap();
    assert_eq!(around.position, chunk(0, 0, 0));
    assert_eq!(around.blocks.get(5).unwrap().block.numeric_id(), 0);
    let above = around.neighbors.by_face(Face::Up).unwrap();
    assert_eq!(above.get(5).unwrap().block.numeric_id(), 1);
    assert!(around.neighbors.by_face(Face::Down).is_none());
    assert!(surroundings(&world, chunk(0, 2, 0), &render_data, &textures).is_none());
}

#[test]
fn near_chunks_throw_shadows() {
    let player = chunk(0, 0, 0);
    let mut world: ClientWorld<i64, u8> = ClientWorld::new();
    for position in [chunk(0, 0, 0), chunk(1, 1, 0), chunk(2, 0, 0), chunk(6, 0, 0)] {
        world.load_chunk(player, position, air_chunk(), components());
    }
    let shown = shadow_chunks(&world, player);
    assert_eq!(shown.len(), 3);
    for entry in &shown {
        assert_eq!(entry.is_detailed, entry.chunk != chunk(2, 0, 0));
    }
    assert!(draws_details(chunk(3, 4, 0), player));
    assert!(!draws_details(chunk(3, 4, 1), player));
}

#[test]
fn surfaces_answer() {
    assert_eq!(surface_result(SurfaceState::Success), Ok(true));
    assert_eq!(surface_result(SurfaceState::Outdated), Err(SurfaceError::Recreate));
    assert_eq!(surface_result(SurfaceState::Suboptimal), Err(SurfaceError::Recreate));
    assert_eq!(surface_result(SurfaceState::Lost), Err(SurfaceError::Crash));
    assert_eq!(surface_result(SurfaceState::Timeout), Ok(false));
    assert!(can_resize(1, 1));
    assert!(!can_resize(0, 5));
}

#[test]
fn faces_have_corners() {
    let coords = TexCoords { u1: 0, v1: 1, u2: 2, v2: 3 };
    assert_eq!(coords.corner(0, 0), (0, 1));
    assert_eq!(coords.corner(1, 1), (2, 3));
    assert_eq!(coords.corner(3, 1), (0, 1));
    let corners = Face::Front.corners();
    assert_eq!(corners, [block(1, 1, 0), block(0, 1, 0), block(0, 0, 0), block(1, 0, 0)]);
    let vertices = Face::Front.get_vertices(coords, 0);
    assert_eq!(vertices[2], (block(0, 0, 0), (2, 3)));
    let vertices = Face::Front.add_vertices(coords, 0);
    assert_eq!(vertices[1], (block(1, 0, 0), (0, 3)));
    for face in Face::all() {
        for corner in face.corners() {
            let offset = face.get_block_offset();
            let along = corner.dot(offset);
            assert_eq!(along, if offset.x + offset.y + offset.z > 0 { 1 } else { 0 });
        }
    }
}

#[test]
fn turned_faces_lie_on_their_side() {
    let rotation = BlockRotation::RightUp;
    assert_eq!(find_local_face(rotation, Face::Right), Face::Front);
    let (corners, local) = get_block_rotation_face_vertices(rotation, Face::Right);
    assert_eq!(local, Face::Front);
    for corner in corners {
        assert_eq!(corner.x, 1);
    }
}

#[test]
fn rays_step_through_blocks() {
    assert_eq!(NextBorders { x: 1, y: 2, z: 3 }.first_axis(), Axis::X);
    assert_eq!(NextBorders { x: 5, y: 2, z: 3 }.first_axis(), Axis::Y);
    assert_eq!(NextBorders { x: 2, y: 2, z: 2 }.first_axis(), Axis::Z);
    let start = RayBlock::start(block(0, 0, 0));
    let next = start.step(Axis::X, true);
    assert_eq!(next.block, block(1, 0, 0));
    assert_eq!(next.face, Face::Left);
    let next = next.step(Axis::Y, false);
    assert_eq!(next.block, block(1, -1, 0));
    assert_eq!(next.face, Face::Up);
}

#[test]
fn rays_meet_boxes() {
    let slab = |axis: Axis, enter: i64, exit: i64| Slab { axis, enter, exit, forward: true };
    let hit = aabb_raycast(0, 100, &[slab(Axis::X, 10, 30), slab(Axis::Y, 5, 50), slab(Axis::Z, -9, 40)]);
    assert_eq!(hit, Some((10, Face::Left)));
    let miss = aabb_raycast(0, 100, &[slab(Axis::X, 10, 30), slab(Axis::Y, 35, 50), slab(Axis::Z, -9, 40)]);
    assert_eq!(miss, None);
    let far = aabb_raycast(0, 100, &[slab(Axis::X, 110, 130), slab(Axis::Y, 5, 150), slab(Axis::Z, -9, 140)]);
    assert_eq!(far, None);
    let inside = aabb_raycast(0, 100, &[slab(Axis::X, -10, 30), slab(Axis::Y, -5, 50), slab(Axis::Z, -9, 40)]);
    assert_eq!(inside, Some((30, Face::Right)));
    let inside_long = aabb_raycast(0, 20, &[slab(Axis::X, -10, 30), slab(Axis::Y, -5, 50), slab(Axis::Z, -9, 40)]);
    assert_eq!(inside_long, None);
    assert_eq!(aabb_raycast(7, 7, &[slab(Axis::X, 0, 9), slab(Axis::Y, 0, 9), slab(Axis::Z, 0, 9)]), None);
}

#[test]
fn a_ray_inside_a_box_meets_the_face_it_leaves_through() {
    // The keys of positive floats are their bits.
    let key = |distance: f32| distance.to_bits() as i64;
    let open = |axis: Axis| Slab { axis, enter: i64::MIN, exit: i64::MAX, forward: true };
    let along_x = Slab { axis: Axis::X, enter: -1, exit: key(0.5), forward: true };
    let (hit, face) = aabb_raycast(0, key(2.0), &[along_x, open(Axis::Y), open(Axis::Z)]).unwrap();
    assert_eq!((0.5 + f32::from_bits(hit as u32), face), (1.0, Face::Right));
    let back = Slab { axis: Axis::Z, enter: -4, exit: 8, forward: false };
    assert_eq!(aabb_raycast(0, 9, &[open(Axis::X), open(Axis::Y), back]), Some((8, Face::Front)));
}

#[test]
fn a_ray_walks_from_block_to_block() {
    let direction = RayDirection { x: true, y: false, z: true };
    let passages: Vec<Passage<u8>> = [Axis::X, Axis::Y, Axis::Z, Axis::X]
        .into_iter()
        .enumerate()
        .map(|(i, axis)| Passage { position: i as u8, axis })
        .collect();
    let mut seen = Vec::new();
    let found: Option<u8> = block_raycast(block(5, 5, 5), direction, &passages, |at, position, face| {
        seen.push((at, position, face));
        if position == 2 { Some(9) } else { None }
    });
    assert_eq!(found, Some(9));
    assert_eq!(
        seen,
        vec![
            (block(5, 5, 5), 0, Face::Front),
            (block(6, 5, 5), 1, Face::Left),
            (block(6, 4, 5), 2, Face::Up),
        ]
    );
    let mut last = None;
    let nothing: Option<u8> = block_raycast(block(5, 5, 5), direction, &passages, |at, _, face| {
        last = Some((at, face));
        None
    });
    assert_eq!((nothing, last), (None, Some((block(6, 4, 6), Face::Front))));
}

#[test]
fn the_nearest_hit_counts() {
    let hits = vec![
        RayHit { distance: 9, result: RayCastResult::Entity(4) },
        RayHit { distance: 2, result: RayCastResult::Block(block(1, 2, 3), Face::Up) },
        RayHit { distance: 5, result: RayCastResult::Plant(block(1, 2, 3), 0) },
    ];
    match pick_nearest(&hits) {
        RayCastResult::Block(position, face) => {
            assert_eq!((position, face), (block(1, 2, 3), Face::Up));
        }
        _ => panic!("the block is nearest"),
    }
    assert!(matches!(pick_nearest(&Vec::new()), RayCastResult::Empty));
}

#[test]
fn polygons_are_cut_off() {
    let cut = clip_against_edge(&vec![('a', true), ('b', true), ('c', false), ('d', false)]);
    assert_eq!(cut.len(), 4);
    assert!(matches!(cut[0], Corner::Crossing('d', 'a')));
    assert!(matches!(cut[1], Corner::Kept('a')));
    assert!(matches!(cut[2], Corner::Kept('b')));
    assert!(matches!(cut[3], Corner::Crossing('b', 'c')));
    assert!(clip_against_edge(&vec![('a', false), ('b', false), ('c', false)]).is_empty());
    let whole = clip_against_edge(&vec![('a', true), ('b', true), ('c', true)]);
    assert_eq!(whole.len(), 3);
    assert!(matches!(whole[2], Corner::Kept('c')));
}

#[test]
fn rectangles_are_cut_off() {
    let span = |start: i64, end: i64| Span { start, end };
    let cut = add_quad_clip((span(0, 10), span(0, 10)), (span(5, 20), span(-5, 20)));
    assert_eq!(cut, Some((Cut { start: true, end: false }, Cut { start: false, end: false })));
    assert_eq!(add_quad_clip((span(0, 10), span(0, 10)), (span(11, 20), span(0, 1))), None);
    assert_eq!(
        span(0, 10).clip(span(10, 20)),
        Some(Cut { start: true, end: false })
    );
}

fn full_block() -> BlockRenderData {
    BlockRenderData::Full {
        faces: FaceMap::init(|_| KeyGroup::Single(Key::from_index(0))),
        render_connectors: FaceMap::init(|_| Vec::new()),
    }
}

#[test]
fn inner_faces_are_not_drawn() {
    let mut textures: LoadRegistry<TextureData> = LoadRegistry::default();
    textures.register("stone".to_string(), String::new());
    let render_data = vec![BlockRenderData::Air, full_block()];
    let mut blocks = air_chunk();
    let air = air_chunk();
    blocks.set(ChunkOffset::new(4, 4, 4).index(), &stone());
    blocks.set(ChunkOffset::new(5, 4, 4).index(), &stone());
    let surroundings = ChunkSurroundings {
        position: chunk(0, 0, 0),
        blocks: &blocks,
        neighbors: FaceMap::init(|_| Some(&air)),
        render_data: &render_data,
        textures: &textures,
    };
    let plants: BlockComponentStorage<ClientBlockPlants> = BlockComponentStorage::default();
    let plant_data: Vec<PlantData> = Vec::new();
    let draws = build_chunk_mesh(&surroundings, &plants, &plant_data, Key::from_index(0));
    assert_eq!(draws.len(), 10);
    for draw in &draws {
        assert!(!draw.is_high_res());
        match draw {
            ChunkDraw::Face { offset, face, color, .. } => {
                assert_eq!(color.0, BlockColor::default().0);
                let hidden = if *offset == ChunkOffset::new(4, 4, 4) { Face::Right } else { Face::Left };
                assert_ne!(*face, hidden);
            }
            _ => panic!("only faces are drawn"),
        }
    }
    let empty = ChunkSurroundings {
        position: chunk(0, 0, 0),
        blocks: &air,
        neighbors: FaceMap::init(|_| Some(&air)),
        render_data: &render_data,
        textures: &textures,
    };
    assert!(build_chunk_mesh(&empty, &plants, &plant_data, Key::from_index(0)).is_empty());
}

#[test]
fn plants_are_listed_in_order() {
    let mut plants = PlantList::new();
    assert_eq!(plants.len(), 0);
    for i in 0..3 {
        plants.push(Key::from_index(7 - i), i as u8 + 4);
    }
    assert_eq!(plants.len(), 3);
    for i in 0..3 {
        let (plant, stage) = plants.at(i);
        assert_eq!(plant.numeric_id(), 7 - i);
        assert_eq!(stage as usize, i + 4);
    }
}

#[test]
fn plants_are_drawn_by_blades() {
    let mut textures: LoadRegistry<TextureData> = LoadRegistry::default();
    textures.register("grass".to_string(), String::new());
    let render_data = vec![BlockRenderData::Air];
    let air = air_chunk();
    let surroundings = ChunkSurroundings {
        position: chunk(0, 0, 0),
        blocks: &air,
        neighbors: FaceMap::init(|_| Some(&air)),
        render_data: &render_data,
        textures: &textures,
    };
    let mut plants: BlockComponentStorage<ClientBlockPlants> = BlockComponentStorage::default();
    let mut grass = PlantList::new();
    grass.push(Key::from_index(0), 0);
    plants.set(
        ChunkOffset::new(1, 2, 3),
        ClientBlockPlants { plants: grass },
    );
    let plant_data = vec![PlantData {
        stages: vec![Key::from_index(0)],
        blades: 3,
        allowed_soil: KeyGroup::Empty,
    }];
    assert!(knows_plants(&plants, &plant_data));
    assert!(!knows_plants(&plants, &Vec::new()));
    let draws = build_chunk_mesh(&surroundings, &plants, &plant_data, Key::from_index(0));
    assert_eq!(draws.len(), 3);
    assert!(draws.iter().all(|draw| draw.is_high_res()));
    assert_eq!(blade_flags(true), [0, 0, 1, 1]);
    assert_eq!(blade_flags(false), [1, 1, 0, 0]);
}
