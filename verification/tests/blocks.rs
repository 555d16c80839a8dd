use block_byte::aabb::AABB;
use block_byte::block::{
    add_machine_connectors, BlockColor, BlockEntry, BlockInteractAction, BlockMachineFace,
    BlockRotationMode, EntityInteractAction, ItemAction, ItemBlockPlacement,
};
use block_byte::color::Color;
use block_byte::coord::{ChunkOffset, Vec3};
use block_byte::damage::{DamageTable, DamageType};
use block_byte::face::{Face, FaceMap, HorizontalFace};
use block_byte::inventory::{InventoryView, ItemMoveMode};
use block_byte::movement::{
    collides_at, CharacterController, Collision, EntityPose, MoveAxis, MoveMode, MovePush,
    MoveTarget,
};
use block_byte::palette::BlockPalette;
use block_byte::prefab::{PrefabData, PrefabEntry};
use block_byte::registry::{Key, KeyGroup};
use block_byte::rotation::BlockRotation;
use block_byte::tick_list::BlockTickList;
use block_byte::component_tree::BlockComponentTree;
use block_byte::world::{
    BlockComponentStorage, ClientBlockComponentUpdate, ClientBlockDamage, ClientChunkBlockComponents,
};

fn entry(block: u32, rotation: BlockRotation) -> BlockEntry {
    BlockEntry { block: Key::from_index(block), color: BlockColor(5), rotation }
}

#[test]
fn block_colors_have_five_bits() {
    assert_eq!(BlockColor(0).to_color(), Color::rgb(0, 0, 0));
    assert_eq!(BlockColor(32767).to_color(), Color::rgb(248, 248, 248));
    assert_eq!(BlockColor(1 + 2 * 32 + 3 * 1024).to_color(), Color::rgb(8, 16, 24));
    assert_eq!(BlockColor::default().0, 32767);
}

#[test]
fn blocks_turn_to_where_one_looks() {
    let fitness = FaceMap { front: 1, back: 2, left: 3, right: 9, up: 20, down: 4 };
    let mode = |mode: BlockRotationMode| mode.from_look_direction(&fitness, Face::Left);
    assert_eq!(mode(BlockRotationMode::Fixed), BlockRotation::FrontUp);
    assert_eq!(mode(BlockRotationMode::Horizontal), BlockRotation::RightUp);
    assert_eq!(mode(BlockRotationMode::Full), BlockRotation::UpBack);
    assert_eq!(mode(BlockRotationMode::FullOriented), BlockRotation::UpLeft);
    assert_eq!(mode(BlockRotationMode::Axis), BlockRotation::FrontUp);
}

#[test]
fn nearest_rotations_stay() {
    let value = BlockRotation::DownLeft;
    assert_eq!(BlockRotationMode::Fixed.get_nearest_valid(value), BlockRotation::FrontUp);
    assert_eq!(BlockRotationMode::Horizontal.get_nearest_valid(value), BlockRotation::FrontUp);
    assert_eq!(BlockRotationMode::Full.get_nearest_valid(value), BlockRotation::DownFront);
    assert_eq!(BlockRotationMode::FullOriented.get_nearest_valid(value), value);
    assert_eq!(BlockRotationMode::Axis.get_nearest_valid(value), BlockRotation::FrontRight);
    for mode in [BlockRotationMode::Horizontal, BlockRotationMode::Full, BlockRotationMode::Axis] {
        let nearest = mode.get_nearest_valid(value);
        assert_eq!(mode.get_nearest_valid(nearest), nearest);
    }
}

#[test]
fn turned_blocks_support_turned_faces() {
    let supporting = FaceMap::init(|face| face == Face::Front);
    let turned = entry(0, BlockRotation::RightUp);
    assert!(turned.supports(&supporting, Face::Right));
    assert!(!turned.supports(&supporting, Face::Front));
    let simple = BlockEntry::simple(Key::from_index(7));
    assert_eq!(simple.rotation, BlockRotation::FrontUp);
    assert_eq!(simple.color.0, 32767);
}

#[test]
fn actions_have_tooltips() {
    assert_eq!(BlockInteractAction::Ignore.tooltip(), None);
    assert_eq!(BlockInteractAction::Pickup.tooltip(), Some("block_action.pickup"));
    assert_eq!(EntityInteractAction::Pickup.tooltip(), Some("block_action.pickup"));
    assert_eq!(EntityInteractAction::default().tooltip(), None);
    let placement =
        ItemBlockPlacement { block: Key::from_index(1), use_count: 2, research: None };
    assert_eq!(ItemAction::<u8>::Place(vec![placement]).variation_count(), 1);
    assert_eq!(ItemAction::<u8>::RotateBlock.variation_count(), 1);
}

#[test]
fn machines_show_connectors() {
    let mut faces = FaceMap::init(|_| BlockMachineFace::Empty);
    faces.up = BlockMachineFace::LogicInput;
    faces.down = BlockMachineFace::SignalOutput;
    let mut connectors: FaceMap<Vec<String>> = FaceMap::init(|_| vec!["wire".to_string()]);
    connectors.down = vec!["signal_output".to_string()];
    add_machine_connectors(&faces, &mut connectors);
    assert_eq!(connectors.up, vec!["wire".to_string(), "logic_input".to_string()]);
    assert_eq!(connectors.down, vec!["signal_output".to_string()]);
    assert_eq!(connectors.left, vec!["wire".to_string()]);
}

#[test]
fn damage_tables_hold_by_type() {
    let mut table: DamageTable<u32> = DamageTable::empty();
    assert_eq!(table.get(DamageType::Blunt), None);
    *table.get_mut(DamageType::Slash) = Some(5);
    *table.get_mut(DamageType::Blunt) = Some(3);
    assert_eq!(table.get(DamageType::Slash), Some(5));
    let all = table.iter();
    assert_eq!(all.len(), 2);
    assert!(matches!(all[0], (DamageType::Blunt, 3)));
    assert!(matches!(all[1], (DamageType::Slash, 5)));
}

#[test]
fn items_move_by_mode() {
    assert_eq!(ItemMoveMode::Stack.get_count(7), 7);
    assert_eq!(ItemMoveMode::Single.get_count(7), 1);
    assert_eq!(ItemMoveMode::Half.get_count(7), 4);
    assert_eq!(ItemMoveMode::KeepOne.get_count(7), 6);
    assert_eq!(ItemMoveMode::KeepOne.get_count(0), 0);
    assert!(ItemMoveMode::Stack.can_swap());
    assert!(!ItemMoveMode::Half.can_swap());
    let view = InventoryView::from_range(3, 6);
    assert_eq!(view.size(), 3);
    assert_eq!(view.slots[2].slot, 5);
    assert_eq!(InventoryView::from_range(6, 3).size(), 0);
}

#[test]
fn moves_are_decided() {
    assert!(MoveMode::Normal.has_gravity());
    assert!(!MoveMode::Fly.has_gravity());
    assert!(!MoveMode::NoClip.collides());
    assert!(EntityPose::Slide.crouches());
}

/// Places are heights on a line; the ground lies at 0, a step of height 3 at x from 10 on, and a wall
/// at z from 10 on.
fn touched(at: (i32, i32, i32)) -> Option<i32> {
    let (x, y, z) = at;
    if z >= 10 {
        Some(100)
    } else if x >= 10 && y < 3 {
        Some(3)
    } else if y < 0 && x > -50 {
        Some(0)
    } else {
        None
    }
}

fn advance(
    controller: &mut CharacterController<i32>,
    from: (i32, i32, i32),
    mode: MoveMode,
    holding_ledge: bool,
) -> (i32, i32, i32) {
    let v = controller.velocity;
    let push = MovePush { move_mode: mode, goes_down: v.y < 0, holding_ledge, nothing: 0 };
    let along = move |axis: MoveAxis| match axis {
        MoveAxis::X => (v.x, 0),
        MoveAxis::Z => (0, v.z),
    };
    controller.advance(
        push,
        touched,
        |at: (i32, i32, i32), target: MoveTarget| match target {
            MoveTarget::Through => (at.0 + v.x, at.1 + v.y, at.2 + v.z),
            MoveTarget::Vertical => (at.0, at.1 + v.y, at.2),
            MoveTarget::Along(axis) => (at.0 + along(axis).0, at.1, at.2 + along(axis).1),
            MoveTarget::Below(axis) => (at.0 + along(axis).0, at.1 - 1, at.2 + along(axis).1),
        },
        |at: (i32, i32, i32), axis: MoveAxis, height: i32| {
            let step = height - at.1;
            let top = (at.0 + along(axis).0, at.1 + step, at.2 + along(axis).1);
            if step <= 4 { Some(top) } else { None }
        },
        from,
    )
}

#[test]
fn characters_move_as_far_as_they_can() {
    let character = |x: i32, y: i32, z: i32| CharacterController {
        velocity: Vec3 { x, y, z },
        on_ground: false,
    };
    let mut falling = character(1, -1, 2);
    assert_eq!(advance(&mut falling, (0, 5, 0), MoveMode::Normal, false), (1, 4, 2));
    assert!(!falling.on_ground && falling.velocity.y == -1);

    let mut landing = character(1, -1, 0);
    assert_eq!(advance(&mut landing, (0, 0, 0), MoveMode::Normal, false), (1, 0, 0));
    assert!(landing.on_ground && landing.velocity.y == 0 && landing.velocity.x == 1);

    let mut climbing = character(1, -1, 0);
    assert_eq!(advance(&mut climbing, (9, 0, 0), MoveMode::Normal, false), (10, 3, 0));
    assert_eq!(climbing.velocity.x, 1);
    let mut flying = character(1, 1, 0);
    assert_eq!(advance(&mut flying, (9, 0, 0), MoveMode::Fly, false), (9, 1, 0));
    assert_eq!(flying.velocity.x, 0);

    let mut stopped = character(1, -1, 1);
    assert_eq!(advance(&mut stopped, (0, 0, 9), MoveMode::Normal, false), (1, 0, 9));
    assert_eq!((stopped.velocity.x, stopped.velocity.z), (1, 0));

    let mut careful = character(-1, -1, 0);
    assert_eq!(advance(&mut careful, (-49, 0, 0), MoveMode::Normal, true), (-49, 0, 0));
    assert_eq!(careful.velocity.x, -1);
    let mut careless = character(-1, -1, 0);
    assert_eq!(advance(&mut careless, (-49, 0, 0), MoveMode::Normal, false), (-50, 0, 0));

    let mut ghost = character(5, -5, 5);
    assert_eq!(advance(&mut ghost, (9, 0, 9), MoveMode::NoClip, false), (14, -5, 14));
    assert_eq!(ghost.velocity.y, -5);
    let still = CharacterController::new(0);
    assert!(!still.on_ground && still.velocity == Vec3 { x: 0, y: 0, z: 0 });
}

#[test]
fn characters_that_touch_nothing_go_on_to_touch_nothing() {
    for x in -3..4 {
        for y in -3..4 {
            for z in -3..4 {
                for from in [(8, 0, 0), (9, 3, 8), (-49, 1, 9), (12, 3, 0), (0, 0, 0)] {
                    let mut controller =
                        CharacterController { velocity: Vec3 { x, y, z }, on_ground: true };
                    assert_eq!(touched(from), None);
                    let to = advance(&mut controller, from, MoveMode::Normal, x == z);
                    assert_eq!(touched(to), None);
                    assert!(!controller.on_ground || controller.velocity.y == 0);
                }
            }
        }
    }
}

#[test]
fn collisions_report_the_highest() {
    assert_eq!(collides_at(&vec![]), Collision::Nothing);
    assert_eq!(collides_at(&vec![Some(vec![]), Some(vec![])]), Collision::Nothing);
    assert_eq!(collides_at(&vec![Some(vec![3]), Some(vec![8, 5])]), Collision::Height(8));
    assert_eq!(collides_at(&vec![Some(vec![]), None]), Collision::Unknown);
}

#[test]
fn palettes_hold_entries() {
    let mut palette = BlockPalette::filled(entry(1, BlockRotation::FrontUp), 32768);
    assert_eq!(palette.unique_values(), 1);
    palette.set(77, &entry(9, BlockRotation::LeftDown));
    palette.set(78, &entry(70000, BlockRotation::LeftDown));
    let found = palette.get(77).unwrap();
    assert_eq!(found.block.numeric_id(), 9);
    assert_eq!(found.rotation, BlockRotation::LeftDown);
    assert_eq!(found.color.0, 5);
    assert_eq!(palette.get(78).unwrap().block.numeric_id(), 70000);
    assert_eq!(palette.get(79).unwrap().block.numeric_id(), 1);
    assert!(palette.get(32768).is_none());
    assert_eq!(palette.unique_values(), 3);
    palette.set(77, &entry(1, BlockRotation::FrontUp));
    assert_eq!(palette.unique_values(), 2);
}

#[test]
fn palettes_hold_many_entries() {
    let mut palette = BlockPalette::filled(entry(0, BlockRotation::FrontUp), 32768);
    for i in 0..500 {
        palette.set(i * 3, &entry(i as u32, BlockRotation::BackLeft));
    }
    for i in 0..500 {
        assert_eq!(palette.get(i * 3).unwrap().block.numeric_id(), i);
        assert_eq!(palette.get(i * 3 + 1).unwrap().rotation, BlockRotation::FrontUp);
    }
    assert_eq!(palette.unique_values(), 501);
}

fn prefab_entry(x: i32, y: i32, z: i32, block: u32) -> PrefabEntry {
    PrefabEntry {
        x,
        y,
        z,
        replace: KeyGroup::Empty,
        replace_inverted: false,
        block: Key::from_index(block),
        rotation: BlockRotation::FrontUp,
        color: BlockColor(0),
        loot_table: None,
    }
}

#[test]
fn prefabs_are_built_turned() {
    let prefab =
        PrefabData { blocks: vec![prefab_entry(1, 2, 3, 0), prefab_entry(-4, 0, 0, 1)] };
    let bounds: AABB<i32> = prefab.bounding_box();
    assert_eq!(bounds.min, Vec3 { x: -4, y: 0, z: 0 });
    assert_eq!(bounds.max, Vec3 { x: 1, y: 2, z: 3 });
    let modes = vec![BlockRotationMode::Horizontal, BlockRotationMode::Fixed];
    let placed = prefab.build(
        Vec3 { x: 10, y: 0, z: 0 },
        HorizontalFace::Right,
        &vec![true, true],
        &modes,
    );
    assert_eq!(placed.len(), 2);
    assert_eq!(placed[0].position, Vec3 { x: 7, y: 2, z: 1 });
    assert_eq!(placed[0].block.rotation, BlockRotation::RightUp);
    assert_eq!(placed[1].block.rotation, BlockRotation::FrontUp);
    let placed = prefab.build(
        Vec3 { x: 10, y: 0, z: 0 },
        HorizontalFace::Front,
        &vec![false, true],
        &modes,
    );
    assert_eq!(placed.len(), 1);
    assert_eq!(placed[0].entry, 1);
}

#[test]
fn trees_map_blocks() {
    let mut tree = BlockComponentTree::default();
    let a = ChunkOffset::new(1, 2, 3);
    let b = ChunkOffset::new(30, 2, 3);
    assert_eq!(tree.get(a), None);
    assert!(tree.has_room(a));
    tree.set(a, 5);
    tree.set(b, 6);
    tree.set(a, 7);
    assert_eq!(tree.get(a), Some(7));
    assert_eq!(tree.get(b), Some(6));
    let copy = tree.clone();
    assert_eq!(tree.remove(b), Some(6));
    assert_eq!(tree.remove(b), None);
    assert_eq!(tree.get(b), None);
    assert_eq!(copy.get(b), Some(6));
}

#[test]
fn trees_have_room_after_many_calls() {
    let mut tree = BlockComponentTree::default();
    let mut expected = std::collections::HashMap::new();
    let place = |i: u16| ChunkOffset::new((i % 32) as u8, (i / 32 * 6) as u8, (i * 7 % 32) as u8);
    for i in 0..200 {
        let at = i % 150;
        assert!(tree.has_room(place(at)));
        if i % 7 == 6 {
            let last = (i - 1) % 150;
            assert_eq!(tree.remove(place(last)), expected.remove(&last));
        } else {
            tree.set(place(at), i);
            expected.insert(at, i);
        }
    }
    for i in 0..150 {
        assert_eq!(tree.get(place(i)), expected.get(&i).copied());
    }
}

#[test]
fn storages_keep_components_together() {
    let mut storage: BlockComponentStorage<String> = BlockComponentStorage::default();
    let places: Vec<ChunkOffset> = (0..5).map(|i| ChunkOffset::new(i * 6, 1, i)).collect();
    for (i, place) in places.iter().enumerate() {
        storage.set(*place, format!("{}", i));
    }
    assert_eq!(storage.get(places[3]).unwrap(), "3");
    assert_eq!(storage.remove(places[1]), Some("1".to_string()));
    assert_eq!(storage.remove(places[1]), None);
    assert_eq!(storage.get(places[4]).unwrap(), "4");
    assert_eq!(storage.components[1].1, "4");
    storage.get_mut(places[0]).unwrap().push('!');
    storage.get_or_init(places[0], || "new".to_string()).push('?');
    storage.get_or_init(places[1], || "new".to_string());
    let all = storage.iter();
    assert_eq!(all.len(), 5);
    assert_eq!(all[0].1, "0!?");
    let lengths = storage.map(|text| text.len());
    assert_eq!(*lengths.get(places[0]).unwrap(), 3);
    assert!(!storage.is_empty());
}

#[test]
fn storages_are_made_of_lists() {
    let full: Vec<(ChunkOffset, u8)> = (0..127).map(|i| (ChunkOffset(i * 255), 1)).collect();
    assert!(BlockComponentStorage::from_components(full, BlockTickList::default()).is_some());
    let close: Vec<(ChunkOffset, u16)> = (0..64)
        .map(|i| (ChunkOffset::new(i % 4, i / 4 % 4, i / 16), i as u16))
        .collect();
    let storage =
        BlockComponentStorage::from_components(close, BlockTickList::default()).unwrap();
    assert_eq!(storage.get(ChunkOffset::new(3, 3, 3)), Some(&63));
    let mut spread: Vec<(ChunkOffset, u8)> = Vec::new();
    for x in 0..8 {
        for y in 0..8 {
            for z in 0..8 {
                spread.push((ChunkOffset::new(x * 4, y * 4, z * 4), 0));
            }
        }
    }
    assert!(BlockComponentStorage::from_components(spread, BlockTickList::default()).is_none());
}

#[test]
fn components_are_updated() {
    let mut components = ClientChunkBlockComponents::<i64> {
        damage: BlockComponentStorage::default(),
        plant: BlockComponentStorage::default(),
        machine: BlockComponentStorage::default(),
    };
    let offset = ChunkOffset::new(1, 1, 1);
    ClientBlockComponentUpdate::ClientBlockDamage(Some(ClientBlockDamage { damage: 4 }))
        .update(offset, &mut components);
    assert_eq!(components.damage.get(offset).unwrap().damage, 4);
    assert!(components.machine.is_empty());
    ClientBlockComponentUpdate::ClientBlockDamage(None).update(offset, &mut components);
    assert!(components.damage.is_empty());
}

#[test]
fn ticks_are_marked_and_walked() {
    let mut list = BlockTickList::default();
    for id in [0, 5, 64, 200] {
        list.set_ticking(id, true);
    }
    list.set_ticking(5, false);
    assert!(list.get_ticking(64));
    assert!(!list.get_ticking(5));
    assert!(!list.get_ticking(100000));
    assert_eq!(list.ticking_count, 3);
    let mut index = list.start_index();
    assert_eq!(list.next_index(&mut index), Some(0));
    assert_eq!(list.next_index(&mut index), Some(64));
    assert_eq!(list.next_index(&mut index), Some(200));
    assert_eq!(list.next_index(&mut index), None);
    assert_eq!(list.next_index(&mut index), None);
}

#[test]
fn timers_wake_when_all_are_due() {
    let mut tree = BlockComponentTree::default();
    let a = ChunkOffset::new(1, 0, 0);
    let b = ChunkOffset::new(2, 0, 0);
    tree.set(a, 3);
    tree.set(b, 4);
    let mut list = BlockTickList::default();
    list.schedule_wakeup(a, 10);
    list.schedule_wakeup(b, 20);
    list.schedule_wakeup(a, 15);
    assert_eq!(list.get_scheduled_wakeup_in(a), Some(15));
    list.process_timer(19, &tree);
    assert!(!list.get_ticking(3));
    list.process_timer(20, &tree);
    assert!(list.get_ticking(3));
    assert!(list.get_ticking(4));
    assert_eq!(list.get_scheduled_wakeup_in(b), None);
}

#[test]
fn removing_moves_the_last_tick() {
    let mut list = BlockTickList::default();
    list.set_ticking(4, true);
    list.schedule_wakeup(ChunkOffset(9), 1);
    list.remove(ChunkOffset(9), 1, 5);
    assert!(list.get_ticking(1));
    assert!(!list.get_ticking(4));
    assert_eq!(list.get_scheduled_wakeup_in(ChunkOffset(9)), None);
}
