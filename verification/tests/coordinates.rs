use block_byte::aabb::AABB;
use block_byte::coord::{BlockPos, ChunkOffset, ChunkPos, Vec3};
use block_byte::face::{Axis, Face, FaceMap, HorizontalFace};
use block_byte::orientation::Orientation;
use block_byte::rotation::BlockRotation;

fn block(x: i32, y: i32, z: i32) -> BlockPos {
    Vec3 { x, y, z }
}

#[test]
fn blocks_fall_into_chunks() {
    let position = block(-1, 32, -33);
    assert_eq!(position.to_chunk_pos(), ChunkPos { x: -1, y: 1, z: -2 });
    assert_eq!(position.to_chunk_offset(), ChunkOffset::new(31, 0, 31));
    assert_eq!(position.to_chunk_offset().0, 31775);
    assert_eq!(
        position.to_chunk_pos_offset(),
        (ChunkPos { x: -1, y: 1, z: -2 }, ChunkOffset(31775))
    );
    assert_eq!(block(i32::MAX, 0, 0).to_chunk_pos(), ChunkPos { x: -1, y: 0, z: 0 });
}

#[test]
fn chunk_and_offset_make_the_block() {
    for position in [block(0, 0, 0), block(-1, -32, -33), block(100, -100, 31)] {
        let (chunk, offset) = position.to_chunk_pos_offset();
        assert_eq!(chunk.to_block_pos() + offset.xyz(), position);
    }
}

#[test]
fn offsets_pack_and_unpack() {
    let offset = ChunkOffset::new(3, 17, 31);
    assert_eq!(offset.0, 3 + 17 * 32 + 31 * 1024);
    assert_eq!(offset.xyz(), block(3, 17, 31));
    assert_eq!(offset.index(), 32291);
    assert_eq!(ChunkOffset::new(255, 0, 0).0, 255);
}

#[test]
fn vectors_compute() {
    let a = block(1, 2, 3);
    let b = block(4, -5, 6);
    assert_eq!(a + b, block(5, -3, 9));
    assert_eq!(a - b, block(-3, 7, -3));
    assert_eq!(-a, block(-1, -2, -3));
    assert_eq!(a * 3, block(3, 6, 9));
    assert_eq!(block(7, 9, 12) / 3, block(2, 3, 4));
    assert_eq!(a.dot(b), 12);
    assert_eq!(a.length_squared(), 14);
    assert_eq!(a.distance_squared(b), 67);
    assert_eq!(BlockPos::zero(), BlockPos::all(0));
}

#[test]
fn faces_have_opposites_and_offsets() {
    for face in Face::all() {
        assert_eq!(face.opposite().opposite(), face);
        assert_eq!(face.get_block_offset() + face.opposite().get_block_offset(), block(0, 0, 0));
        let chunk = face.get_chunk_offset();
        let offset = face.get_block_offset();
        assert_eq!((chunk.x as i32, chunk.y as i32, chunk.z as i32), (offset.x, offset.y, offset.z));
    }
    assert_eq!(Face::Front.get_block_offset(), block(0, 0, -1));
    assert_eq!(Face::Left.axis_direction(), (Axis::X, true));
    assert_eq!(Face::horizontal(), [Face::Front, Face::Back, Face::Left, Face::Right]);
}

#[test]
fn faces_cross() {
    assert_eq!(Face::Right.cross(Face::Up), Face::Back);
    assert_eq!(Face::Up.cross(Face::Right), Face::Front);
    assert_eq!(Face::Front.cross(Face::Up), Face::Right);
    assert_eq!(Face::Left.cross(Face::Down), Face::Back);
}

#[test]
fn face_maps_hold_by_face() {
    let mut map = FaceMap::init(|face| face.opposite());
    for face in Face::all() {
        assert_eq!(*map.by_face(face), face.opposite());
    }
    *map.by_face_mut(Face::Up) = Face::Front;
    assert_eq!(*map.by_face(Face::Up), Face::Front);
    assert_eq!(*map.by_face(Face::Down), Face::Up);
    let turned = map.map(|face| face.opposite());
    assert_eq!(*turned.by_face(Face::Up), Face::Back);
    assert_eq!(*turned.by_face(Face::Left), Face::Left);
}

#[test]
fn boxes_span_their_corners() {
    let bb = AABB::new(block(3, -1, 5), block(1, 2, 5));
    assert_eq!(bb.min, block(1, -1, 5));
    assert_eq!(bb.max, block(3, 2, 5));
    assert!(bb.contains(block(3, 2, 5)));
    assert!(!bb.contains(block(3, 3, 5)));
    assert!(bb.intersects(AABB::new(block(3, 2, 5), block(9, 9, 9))));
    assert!(!bb.intersects(AABB::new(block(4, 2, 5), block(9, 9, 9))));
    assert_eq!(bb.offset(block(1, 1, 1)).min, block(2, 0, 6));
}

#[test]
fn boxes_are_walked_along_x_first() {
    let bb = AABB::new(block(0, 0, 0), block(1, 1, 1));
    let points = bb.points();
    assert_eq!(points.len(), 8);
    assert_eq!(points[0], block(0, 0, 0));
    assert_eq!(points[1], block(1, 0, 0));
    assert_eq!(points[2], block(0, 1, 0));
    assert_eq!(points[4], block(0, 0, 1));
    assert_eq!(points[7], block(1, 1, 1));
    let mut walk = bb.into_iter();
    for point in points {
        assert_eq!(walk.next(), Some(point));
    }
    assert_eq!(walk.next(), None);
    assert_eq!(walk.next(), None);
}

#[test]
fn rotations_turn_faces() {
    let rotation = BlockRotation::new(Face::Right, Face::Up).unwrap();
    assert_eq!(rotation, BlockRotation::RightUp);
    assert_eq!(rotation.rotate_face(Face::Front), Face::Right);
    assert_eq!(rotation.rotate_face(Face::Up), Face::Up);
    assert_eq!(rotation.rotate_face(Face::Right), Face::Back);
    assert_eq!(rotation.right_face(), Face::Back);
    assert_eq!(rotation.rotate_block_pos(block(1, 2, 3)), block(-3, 2, 1));
    for face in Face::all() {
        assert_eq!(rotation.inverse_rotate_face(rotation.rotate_face(face)), face);
    }
    assert_eq!(BlockRotation::new(Face::Up, Face::Down), None);
    assert_eq!(BlockRotation::default(), BlockRotation::FrontUp);
}

#[test]
fn rotations_look_to_faces() {
    assert_eq!(BlockRotation::looking_to(Face::Up), BlockRotation::UpBack);
    assert_eq!(BlockRotation::looking_to(Face::Down), BlockRotation::DownFront);
    assert_eq!(BlockRotation::looking_to(Face::Left), BlockRotation::LeftUp);
    assert_eq!(
        BlockRotation::looking_to_horizontal(HorizontalFace::Back),
        BlockRotation::BackUp
    );
    let all = BlockRotation::default_connection_rotations_all();
    assert_eq!(all.len(), 6);
    assert_eq!(all[0], BlockRotation::FrontUp);
    assert_eq!(all[2], BlockRotation::UpBack);
}

#[test]
fn rotations_compose() {
    let quarter = BlockRotation::RightUp;
    let half = quarter.compose(quarter);
    assert_eq!(half, BlockRotation::BackUp);
    assert_eq!(half.compose(half), BlockRotation::FrontUp);
    for face in Face::all() {
        assert_eq!(
            quarter.compose(BlockRotation::UpLeft).rotate_face(face),
            quarter.rotate_face(BlockRotation::UpLeft.rotate_face(face))
        );
    }
}

#[test]
fn rotations_turn_boxes() {
    let bb = BlockRotation::RightUp.rotate_block_aabb(AABB::new(block(0, 0, 0), block(1, 2, 3)));
    assert_eq!(bb.min, block(-3, 0, 0));
    assert_eq!(bb.max, block(0, 2, 1));
}

#[test]
fn orientations_are_a_group() {
    let all = Orientation::all();
    assert_eq!(all.len(), 24);
    assert_eq!(all[0], Orientation::from_front_up(Face::Front, Face::Up).unwrap());
    for a in &all {
        assert_eq!(a.compose(Orientation::identity()), *a);
        for b in &all {
            let both = a.compose(*b);
            for face in Face::all() {
                assert_eq!(both.apply(face), a.apply(b.apply(face)));
            }
        }
        for face in Face::all() {
            assert_eq!(a.inverse_apply(a.apply(face)), face);
        }
    }
    assert_eq!(Orientation::from_front_up(Face::Front, Face::Back), None);
    let turned = Orientation::from_front_right(Face::Up, Face::Right).unwrap();
    assert_eq!(turned.up, Face::Back);
    assert_eq!(turned.rotate_block_pos(block(1, 2, 3)), block(1, -3, 2));
}
