use block_byte::block::{ItemAction, ItemBlockPlacement};
use block_byte::client_game::{ClientGame, GameEffect, HOTBAR_SLOTS};
use block_byte::color::Color;
use block_byte::controls::{
    crosshair_brightness, hint, hint_text, is_slowed, is_supported, jumps, land_blow,
    player_move_mode, turn, use_item, Gait, ItemUse, MoveKeys, Placement,
};
use block_byte::coord::{BlockPos, ChunkPos, Vec3};
use block_byte::element_style::{get_element_style, Amount, Length, Style, StyleSource};
use block_byte::face::{Face, FaceMap};
use block_byte::input::{InputContainer, MouseButton};
use block_byte::inventory::ItemMoveMode;
use block_byte::movement::{EntityPose, MoveMode};
use block_byte::keys::{
    Deed, KEY_DIGITS, KEY_DROP, KEY_ESCAPE, KEY_INTERACT, KEY_INVENTORY, KEY_RUN, KEY_VARIANT,
};
use block_byte::net::{
    ClientItem, EntityAction, LookDirection, NetworkMessageC2S, NetworkMessageS2C,
    PropertyModifyMode,
};
use block_byte::property::{can_patch, extract_patched_properties_from_text, PropertyMap};
use block_byte::raycast::RayCastResult;
use block_byte::registry::{ItemData, Key, KeyGroup, LoadRegistry, RecipeData, ResearchData, TextureData};
use block_byte::rotation::BlockRotation;
use block_byte::screen::{
    draw_item_slot, filter_passes, grid_rows, hover_button, hover_cheat_item, hover_recipe,
    hover_research, hover_slot, lay_out_grid, recipe_text, release_slot, ItemPlace, ScreenData,
    SlotId, TextField, TextKey, CraftAreaRecipes,
};
use block_byte::screen_frame::{
    list_entries, render_element, render_field, render_slot, ElementFrame, EntryKey, Scene, Touch,
};
use block_byte::sorted::sorted_order;
use block_byte::text;
use block_byte::ui_element::{UIElementType, UIError, UIRegistries, UIScreen};
use block_byte::ui_style::{
    FlexDirection, PropertyComparator, StretchTexture, StyleError, StyleLength, StyleValue,
    UIStyleList, UIStyleRule,
};
use block_byte::viewmodel::{
    hand_model, hand_step, machine_animation, AnimationPlayer, AnimationTime, HandAnimation,
    HandModel, HandPlay, HandTimes, LoopMode,
};
use block_byte::weighted::{get_random, get_random_weighted_list, RoadPlacementEntry};

type Game = ClientGame<i64, u8, u64, u8>;

fn block(x: i32, y: i32, z: i32) -> BlockPos {
    Vec3 { x, y, z }
}

fn buttons() -> InputContainer<i64> {
    InputContainer::new()
}

#[test]
fn buttons_are_held_and_released() {
    let mut buttons = buttons();
    let left = MouseButton::Left.code();
    buttons.press(left, 0);
    assert!(buttons.is_down(left) && buttons.is_just_down(left));
    assert_eq!(buttons.held_time(left, -1), 0);
    buttons.frame_clear(|time| time + 5);
    assert!(buttons.is_down(left) && !buttons.is_just_down(left));
    assert_eq!(buttons.held_time(left, -1), 5);
    buttons.release(left);
    assert!(!buttons.is_down(left) && buttons.is_just_up(left));
    assert_eq!(buttons.held_time(left, -1), -1);
    assert_ne!(MouseButton::Other(0).code(), MouseButton::Forward.code());
}

#[test]
fn dragging_moves_items() {
    let mut buttons = buttons();
    buttons.press(MouseButton::Left.code(), 0);
    let (selected, message) = hover_slot(None, SlotId::Id(3), &buttons);
    assert_eq!(selected, Some((3, MouseButton::Left)));
    assert!(message.is_none());
    assert_eq!(release_slot(selected, &buttons), selected);
    buttons.frame_clear(|time| time);
    buttons.release(MouseButton::Left.code());
    let (selected, message) = hover_slot(selected, SlotId::Id(5), &buttons);
    assert!(matches!(
        message,
        Some(NetworkMessageC2S::MoveItem { from: 3, to: 5, mode: ItemMoveMode::Stack })
    ));
    let (_, message) = hover_slot(selected, SlotId::Trash, &buttons);
    assert!(matches!(
        message,
        Some(NetworkMessageC2S::TrashItem { slot: 3, mode: ItemMoveMode::Stack })
    ));
    assert_eq!(release_slot(selected, &buttons), None);
    let message = hover_research(selected, Key::from_index(2), &buttons);
    assert!(matches!(message, Some(NetworkMessageC2S::Research { slot: 3, .. })));
    assert!(hover_research::<i64>(None, Key::from_index(2), &buttons).is_none());
}

#[test]
fn dragged_items_are_drawn_at_the_cursor() {
    assert_eq!(draw_item_slot(7, None, true), vec![(ItemPlace::Slot, 7)]);
    assert_eq!(
        draw_item_slot(7, Some(MouseButton::Left), true),
        vec![(ItemPlace::Cursor, 7)]
    );
    assert_eq!(
        draw_item_slot(7, Some(MouseButton::Right), true),
        vec![(ItemPlace::Slot, 3), (ItemPlace::Cursor, 4)]
    );
    assert!(draw_item_slot(7, Some(MouseButton::Right), false).is_empty());
}

#[test]
fn filters_hide_names() {
    assert!(filter_passes(None, "oak"));
    assert!(filter_passes(Some(""), "oak"));
    assert!(filter_passes(Some("oa k"), "oak"));
    assert!(!filter_passes(Some("oa x"), "oak"));
    let names = vec!["oak".to_string(), "ash".to_string(), "oats".to_string(), "oar".to_string()];
    let cells = lay_out_grid(&names, Some("oa"), 2);
    assert_eq!(cells.len(), 3);
    assert_eq!((cells[1].entry, cells[1].column, cells[1].row), (2, 1, 0));
    assert_eq!((cells[2].entry, cells[2].column, cells[2].row), (3, 0, 1));
    assert_eq!(grid_rows(3, 2), 2);
    assert_eq!(grid_rows(0, 2), 0);
}

#[test]
fn clicks_craft_and_give() {
    let mut buttons = buttons();
    assert!(hover_recipe(Key::from_index(1), &buttons).is_empty());
    buttons.press(MouseButton::Left.code(), 0);
    buttons.press(MouseButton::Right.code(), 0);
    let crafted = hover_recipe(Key::from_index(1), &buttons);
    assert_eq!(crafted.len(), 2);
    assert!(matches!(crafted[0], NetworkMessageC2S::Craft { count: 1, .. }));
    assert!(matches!(crafted[1], NetworkMessageC2S::Craft { count: 5, .. }));
    let given = hover_cheat_item(Key::from_index(1), &buttons);
    assert!(matches!(given[0], NetworkMessageC2S::GiveItem { stack: false, .. }));
    assert!(matches!(given[1], NetworkMessageC2S::GiveItem { stack: true, .. }));
    match hover_button("power", 7, PropertyModifyMode::Add, &buttons) {
        Some(NetworkMessageC2S::UIButtonPress { property, value, .. }) => {
            assert_eq!((property.as_str(), value), ("power", 7));
        }
        _ => panic!("the button was pressed"),
    }
    assert_eq!(
        recipe_text("Chair", &vec![("2".to_string(), "Plank".to_string())], &vec!["Chair".to_string()]),
        "Chair\n-2xPlank\n+Chair"
    );
}

#[test]
fn fields_are_typed_into() {
    let mut field = TextField::new();
    field.type_keys(&vec![TextKey::Character('x')]);
    assert!(field.text.is_empty());
    let mut buttons = buttons();
    buttons.press(MouseButton::Left.code(), 0);
    field.click(true, &buttons);
    assert!(field.selected);
    field.type_keys(&vec![
        TextKey::Character('a'),
        TextKey::Space,
        TextKey::Character('b'),
        TextKey::ArrowLeft,
        TextKey::Backspace,
        TextKey::Character('c'),
        TextKey::Other,
    ]);
    assert_eq!(field.text, vec!['a', 'c', 'b']);
    assert_eq!(field.text_cursor, 2);
    field.click(false, &buttons);
    assert!(!field.selected);
}

#[test]
fn predictions_run_out() {
    let mut screen: ScreenData<i64> =
        ScreenData::open(Key::from_index(0), Vec::new(), PropertyMap::new(), 0);
    screen.selected_slot = Some((4, MouseButton::Left));
    screen.predict(10, |time| if time > 3 { Some(time - 3) } else { None });
    assert_eq!(screen.slot_action_prediction.len(), 1);
    assert_eq!(screen.slot_action_prediction[0].time, 7);
    screen.selected_slot = None;
    for _ in 0..2 {
        screen.predict(10, |time| if time > 3 { Some(time - 3) } else { None });
    }
    assert_eq!(screen.slot_action_prediction.len(), 1);
    screen.predict(10, |time| if time > 3 { Some(time - 3) } else { None });
    assert!(screen.slot_action_prediction.is_empty());
}

fn item(index: u32, count: u16) -> ClientItem {
    ClientItem { item: Key::from_index(index), count, description: String::new() }
}

fn game() -> Game {
    ClientGame::new(Key::from_index(0), 0, Vec3 { x: 0, y: 0, z: 0 }, 0)
}

fn here() -> ChunkPos {
    Vec3 { x: 0, y: 0, z: 0 }
}

#[test]
fn games_take_messages() {
    let mut game = game();
    let effect = game.take_message(here(), NetworkMessageS2C::GameTick { ticks_passed: 9, mspt: 3 }, 1, 1, 0);
    assert!(matches!(effect, GameEffect::TickServer));
    assert_eq!(game.server_ticks_passed, 9);
    let look = LookDirection { pitch: 0, yaw: 0 };
    let effect = game.take_message(
        here(),
        NetworkMessageS2C::AddEntity {
            uuid: 77,
            key: Key::from_index(2),
            position: Vec3 { x: 1, y: 2, z: 3 },
            direction: look,
            hand_item: None,
            pose: EntityPose::Walk,
        },
        1,
        4,
        0,
    );
    assert_eq!(game.entities.get(77).unwrap().update_timestamp, 4);
    let position = Vec3 { x: 2, y: 2, z: 3 };
    let step = NetworkMessageS2C::MoveEntity { uuid: 77, position, direction: look, pose: EntityPose::Walk };
    game.take_message(here(), step, 5, 6, 0);
    assert_eq!(game.entities.get(77).unwrap().update_timestamp, 5);
    assert_eq!(game.entities.get(77).unwrap().previous_position.x, 1);
    assert!(matches!(effect, GameEffect::ShowEntity { uuid: 77, pose: EntityPose::Walk }));
    assert!(game.get_player_data().is_none());
    game.take_message(here(), NetworkMessageS2C::SetPlayerEntity { uuid: Some(77) }, 1, 1, 0);
    assert_eq!(game.get_player_data().unwrap().numeric_id(), 2);
    game.take_message(here(), NetworkMessageS2C::HUDSlot { slot: 0, item: Some(item(4, 5)) }, 1, 1, 0);
    assert_eq!(game.held_item().as_ref().unwrap().count, 5);
    game.take_message(here(), NetworkMessageS2C::RemoveEntity { uuid: 77 }, 1, 1, 0);
    assert!(game.get_player_data().is_none());
    let effect = game.take_message(
        here(),
        NetworkMessageS2C::UIOpen {
            screen: Key::from_index(1),
            slots: vec![None],
            properties: PropertyMap::new(),
        },
        1,
        1,
        0,
    );
    assert!(matches!(effect, GameEffect::ShowCursor));
    game.take_message(here(), NetworkMessageS2C::UISetSlot { slot: 0, item: Some(item(1, 1)) }, 1, 1, 0);
    assert!(game.screen.as_ref().unwrap().slots[0].is_some());
    let effect = game.take_message(here(), NetworkMessageS2C::UIClose, 1, 1, 0);
    assert!(matches!(effect, GameEffect::HideCursor));
    assert!(game.screen.is_none());
    let tick: NetworkMessageS2C<i64, u8> = NetworkMessageS2C::UIClose;
    assert!(!tick.is_block_related());
    let unload: NetworkMessageS2C<i64, u8> = NetworkMessageS2C::UnloadChunk { position: here() };
    assert!(unload.is_block_related());
}

#[test]
fn slots_and_variations_turn() {
    assert_eq!(turn(0, -1, 10), 9);
    assert_eq!(turn(9, 3, 10), 2);
    assert_eq!(turn(turn(4, 7, 10), -7, 10), 4);
    let mut game = game();
    assert!(game.choose_slot(0).is_none());
    assert!(matches!(game.choose_slot(3), Some(NetworkMessageC2S::HotbarSelect { slot: 3 })));
    assert!(matches!(game.scroll_slot(-4), NetworkMessageC2S::HotbarSelect { slot: 9 }));
    assert_eq!(HOTBAR_SLOTS, 10);
    game.choose_slot(0);
    game.hud.slots[0] = Some(item(6, 1));
    game.scroll_variation(1, 3);
    assert_eq!(game.chosen_variation(Key::from_index(6)), 1);
    game.choose_variation(2, 3);
    assert_eq!(game.chosen_variation(Key::from_index(6)), 2);
    game.choose_variation(3, 3);
    assert_eq!(game.chosen_variation(Key::from_index(6)), 2);
    game.scroll_variation(1, 3);
    assert_eq!(game.chosen_variation(Key::from_index(6)), 0);
}

#[test]
fn keys_act_one_after_the_other() {
    let mut game = game();
    let counts = vec![1, 1, 1, 1, 3];
    game.take_message(here(), NetworkMessageS2C::HUDSlot { slot: 2, item: Some(item(4, 5)) }, 1, 1, 0);
    let mut keys: InputContainer<i64> = InputContainer::new();
    assert!(game.are_items_counted(&counts));
    assert!(!game.are_items_counted(&vec![1, 1, 1, 1]));
    assert!(game.press_digits(&keys, &counts).is_empty());
    keys.press(KEY_DIGITS + 2, 0);
    keys.press(KEY_DIGITS + 7, 0);
    let sent = game.press_digits(&keys, &counts);
    assert_eq!(sent.len(), 2);
    assert!(matches!(sent[0], NetworkMessageC2S::HotbarSelect { slot: 2 }));
    assert!(matches!(sent[1], NetworkMessageC2S::HotbarSelect { slot: 7 }));
    assert_eq!(game.hotbar_slot, 7);
    assert!(game.needs_equip);

    let idle = Deed {
        result: RayCastResult::Plant(block(1, 2, 3), 4),
        is_ignored: false,
        steps: None,
        can_queue: true,
    };
    let mut buttons: InputContainer<i64> = InputContainer::new();
    buttons.press(MouseButton::Left.code(), 0);
    let mut keys: InputContainer<i64> = InputContainer::new();
    keys.press(KEY_INTERACT, 0);
    keys.press(KEY_DROP, 0);
    keys.press(KEY_RUN, 0);
    let sent = game.press_actions(&keys, &buttons, &counts, Deed { steps: Some(5), ..idle });
    assert_eq!(sent.len(), 3);
    assert!(matches!(sent[0], NetworkMessageC2S::HarvestPlant { index: 4, .. }));
    assert!(matches!(sent[1], NetworkMessageC2S::DropItem { stack: true }));
    assert!(matches!(sent[2], NetworkMessageC2S::HotbarSelect { slot: 2 }));
    assert!(game.is_attack_queued);
    assert!(game.current_local_action.is_none());

    let mut keys: InputContainer<i64> = InputContainer::new();
    keys.press(KEY_VARIANT, 0);
    keys.press(KEY_DIGITS + 1, 0);
    keys.press(KEY_DIGITS + 3, 0);
    assert!(game.press_digits(&keys, &counts).is_empty());
    assert_eq!(game.chosen_variation(Key::from_index(4)), 1);
    assert!(game.press_actions(&keys, &buttons, &counts, Deed { steps: Some(-2), ..idle }).is_empty());
    assert_eq!(game.chosen_variation(Key::from_index(4)), 2);
    assert_eq!(game.hotbar_slot, 2);

    keys.press(KEY_ESCAPE, 0);
    keys.press(KEY_INVENTORY, 0);
    let sent = game.press_screen(&keys);
    assert!(matches!(sent[0], NetworkMessageC2S::CloseUI));
    assert!(matches!(sent[1], NetworkMessageC2S::OpenPlayerInventory));
}

#[test]
fn players_interact() {
    let mut game = game();
    let hit = RayCastResult::Block(block(1, 2, 3), Face::Up);
    assert!(matches!(
        game.interact(hit, false),
        Some(NetworkMessageC2S::InteractBlock { .. })
    ));
    assert!(matches!(game.current_local_action, Some(EntityAction::Interact)));
    assert!(game.interact(hit, true).is_none());
    assert!(game.interact(RayCastResult::Empty, false).is_none());
    assert!(matches!(
        game.interact(RayCastResult::Plant(block(0, 0, 0), 4), false),
        Some(NetworkMessageC2S::HarvestPlant { index: 4, .. })
    ));
    assert!(matches!(game.escape(), Some(NetworkMessageC2S::CloseUI)));
    assert!(matches!(game.toggle_inventory(), NetworkMessageC2S::OpenPlayerInventory));
    game.current_local_action = None;
    game.is_attack_queued = true;
    assert!(!game.begin_action(true, true));
    assert!(game.begin_action(false, true));
    assert!(matches!(game.current_local_action, Some(EntityAction::Attack)));
    assert!(!game.is_attack_queued);
    assert!(matches!(
        land_blow::<i64>(hit),
        Some(NetworkMessageC2S::AttackBlock { .. })
    ));
    assert_eq!(crosshair_brightness(hit), 255);
    assert_eq!(crosshair_brightness(RayCastResult::Empty), 200);
    assert_eq!(hint(RayCastResult::Empty, None, None), None);
    assert_eq!(hint_text("Open"), "[E]Open");
}

#[test]
fn gaits_make_poses() {
    let gait = Gait::decide(true, true, false, false, true, true, MoveMode::Normal);
    assert!(gait.running && gait.walking && !gait.crouching);
    assert_eq!(gait.pose(), EntityPose::Run);
    let gait = Gait::decide(true, true, true, true, true, true, MoveMode::Normal);
    assert_eq!(gait.pose(), EntityPose::CrouchWalk);
    let gait = Gait::decide(false, false, false, false, true, false, MoveMode::Normal);
    assert_eq!(gait.pose(), EntityPose::Crouch);
    assert!(is_slowed(MoveMode::Normal, gait));
    let gait = Gait::decide(false, false, false, false, true, false, MoveMode::NoClip);
    assert_eq!(gait.pose(), EntityPose::Stand);
    assert_eq!(player_move_mode(true), MoveMode::Fly);
    assert!(jumps(MoveMode::Normal, true, true, true));
    assert!(!jumps(MoveMode::Fly, true, true, true));
    let keys =
        MoveKeys { forward: true, back: false, left: true, right: false, up: true, down: true };
    assert_eq!(keys.direction(true), (-1, 0, 1));
    assert_eq!(keys.direction(false), (0, 0, 0));
}

fn free() -> Placement {
    Placement { has_enough: true, is_occupied: false, is_supported: true, is_free: true }
}

#[test]
fn items_are_used() {
    assert!(!free().is_blocked());
    assert_eq!(free().preview(true), Some(Color { r: 255, g: 255, b: 255, a: 150 }));
    let lacking = Placement { has_enough: false, ..free() };
    assert_eq!(lacking.preview(true), Some(Color { r: 255, g: 100, b: 100, a: 150 }));
    assert_eq!(lacking.preview(false), None);
    let place: ItemAction<u8> = ItemAction::Place(vec![ItemBlockPlacement {
        block: Key::from_index(1),
        use_count: 4,
        research: None,
    }]);
    let hit = RayCastResult::Block(block(1, 2, 3), Face::Up);
    match use_item::<i64, u8>(&place, hit, 0, free(), true, false) {
        ItemUse::Use { action, message } => {
            assert!(matches!(action, EntityAction::Place));
            assert!(matches!(message, NetworkMessageC2S::ItemInteraction { variant: 0, .. }));
        }
        ItemUse::Nothing => panic!("the block can be placed"),
    }
    assert!(matches!(
        use_item::<i64, u8>(&place, hit, 0, lacking, true, false),
        ItemUse::Nothing
    ));
    assert!(matches!(
        use_item::<i64, u8>(&place, hit, 0, free(), false, false),
        ItemUse::Nothing
    ));
    let supporting = vec![FaceMap::init(|face| face == Face::Up)];
    let mut neighbors: FaceMap<Option<block_byte::block::BlockEntry>> = FaceMap::init(|_| None);
    assert!(is_supported(None, BlockRotation::FrontUp, &neighbors, &supporting));
    assert!(!is_supported(Some(Face::Down), BlockRotation::FrontUp, &neighbors, &supporting));
    neighbors.down = Some(block_byte::block::BlockEntry::simple(Key::from_index(0)));
    assert!(is_supported(Some(Face::Down), BlockRotation::FrontUp, &neighbors, &supporting));
    assert!(!is_supported(Some(Face::Up), BlockRotation::FrontUp, &neighbors, &supporting));
}

#[test]
fn hands_play_actions() {
    let early = HandTimes {
        swing_is_over: false,
        item_changes: false,
        action_is_over: false,
        idle_is_over: false,
        running_is_over: false,
    };
    let late = HandTimes {
        swing_is_over: true,
        item_changes: true,
        action_is_over: true,
        idle_is_over: true,
        running_is_over: true,
    };
    let step = hand_step(Some(EntityAction::Place), HandAnimation::Idle, early, false);
    assert_eq!(step.play, HandPlay::Action(EntityAction::Place));
    let step = hand_step(Some(EntityAction::Attack), HandAnimation::Hit, late, true);
    assert_eq!(step.play, HandPlay::Running);
    assert!(step.ends_action);
    let step = hand_step(Some(EntityAction::Equip), HandAnimation::Other, late, false);
    assert!(step.ends_action && step.changes_item);
    assert_eq!(step.play, HandPlay::Idle);
    let step = hand_step(None, HandAnimation::Idle, late, false);
    assert_eq!(step.play, HandPlay::Restart);
    let step = hand_step(None, HandAnimation::Running, early, false);
    assert_eq!(step.play, HandPlay::Idle);
    let mut game = game();
    game.hud.slots[0] = Some(item(6, 1));
    game.current_local_action = Some(EntityAction::Equip);
    assert_eq!(game.tick_hand(HandAnimation::Other, late, false), HandPlay::Idle);
    assert!(game.current_local_action.is_none());
    assert_eq!(game.swap_hand_item.unwrap().0.numeric_id(), 6);
}

#[test]
fn hands_show_what_is_placed() {
    let place: ItemAction<u8> = ItemAction::Place(vec![ItemBlockPlacement {
        block: Key::from_index(3),
        use_count: 4,
        research: None,
    }]);
    match hand_model(&place, 0, &Some(item(1, 2))) {
        HandModel::Block { block, is_lacking } => {
            assert_eq!(block.numeric_id(), 3);
            assert!(is_lacking);
        }
        HandModel::Item => panic!("the block is shown"),
    }
    assert!(matches!(hand_model(&ItemAction::<u8>::RotateBlock, 0, &None), HandModel::Item));
}

#[test]
fn animations_end() {
    assert_eq!(machine_animation(0, 0, false, LoopMode::Once), None);
    assert_eq!(machine_animation(2, 3, false, LoopMode::Once), Some((2, AnimationTime::Passed)));
    assert_eq!(machine_animation(2, 3, true, LoopMode::Once), Some((0, AnimationTime::AfterEnd)));
    assert_eq!(machine_animation(2, 3, true, LoopMode::Hold), Some((2, AnimationTime::End)));
    assert_eq!(machine_animation(2, 3, true, LoopMode::Loop), Some((2, AnimationTime::Repeated)));
    let mut player = AnimationPlayer::new('a', 0);
    player.play_animation('b', 5, 3, 0);
    assert_eq!(player.get_animation(), ('b', 0));
    assert_eq!(player.previous_animations.len(), 1);
    assert_eq!(player.previous_animations[0].interpolation_time, 3);
    player.current.animation_time = 9;
    player.restart_animation(0);
    assert_eq!(player.get_animation(), ('b', 0));
}

#[test]
fn properties_fill_texts() {
    let mut properties: PropertyMap<String> = PropertyMap::new();
    properties.insert("power".to_string(), "7".to_string());
    assert_eq!(properties.patch_text("no braces"), "no braces");
    assert_eq!(properties.patch_text("at {power}"), "at 7");
    assert_eq!(properties.patch_text("{fuel}"), "0");
    assert!(can_patch("no braces"));
    assert!(can_patch("{power} }"));
    assert!(!can_patch("power} {fuel}"));
    let mut names = vec!["fuel".to_string()];
    extract_patched_properties_from_text("{power} of {fuel} {power}", &mut names);
    assert_eq!(names, vec!["fuel".to_string(), "power".to_string()]);
    assert!(PropertyComparator::Less.satisfies(1, 2));
    assert!(!PropertyComparator::Equal.satisfies(1, 2));
    assert!(PropertyComparator::Greater.satisfies(3, 2));
}

fn textures() -> LoadRegistry<TextureData> {
    let mut textures = LoadRegistry::default();
    textures.register("frame".to_string(), String::new());
    textures
}

#[test]
fn styles_are_read() {
    let textures = textures();
    let list = UIStyleList::parse(
        "flex-direction: column; size: 50% power; [power>3] background: frame,4;",
        &textures,
    )
    .unwrap();
    assert_eq!(list.rules.len(), 4);
    assert!(matches!(list.rules[0].0, UIStyleRule::FlexDirection(FlexDirection::Column)));
    match &list.rules[1].0 {
        UIStyleRule::Width(StyleLength::Percent(StyleValue::Constant(text))) => {
            assert_eq!(text, "50");
        }
        _ => panic!("the width is a percentage"),
    }
    match &list.rules[2].0 {
        UIStyleRule::Height(StyleLength::Length(StyleValue::Property(name))) => {
            assert_eq!(name, "power");
        }
        _ => panic!("the height is a property"),
    }
    match &list.rules[3] {
        (UIStyleRule::Background(texture), Some(condition)) => {
            assert_eq!(texture.border, 4);
            assert_eq!(condition.property, "power");
            assert!(matches!(condition.comparator, PropertyComparator::Greater));
            assert_eq!(condition.value, "3");
        }
        _ => panic!("the background has a condition"),
    }
    assert!(matches!(
        UIStyleList::parse("color: red", &textures),
        Err(StyleError::UnknownRule(name)) if name == "color"
    ));
    assert!(matches!(
        UIStyleList::parse("background: wall", &textures),
        Err(StyleError::TextureNotFound(name)) if name == "wall"
    ));
    assert!(matches!(StretchTexture::parse("frame,x", &textures), Err(StyleError::BorderNumber)));
    assert!(matches!(
        UIStyleList::try_parse("width", &textures),
        Err(StyleError::Malformed)
    ));
}

#[test]
fn styles_are_applied_in_order() {
    let textures = textures();
    let class = UIStyleList::parse("width: 10; height: auto; padding-left: auto", &textures).unwrap();
    let own = UIStyleList::parse("width: power; [power<5] height: 3; [power>5] font-size: 20", &textures).unwrap();
    let mut properties: PropertyMap<i64> = PropertyMap::new();
    properties.insert("power".to_string(), 7);
    let style: Style = get_element_style(
        &vec![StyleSource { list: &class, values: vec![0, 0, 0] }],
        &StyleSource { list: &own, values: vec![0, 5, 5] },
        &properties,
    );
    assert!(matches!(style.width, Some(Length::Length(Amount::Held(7)))));
    assert!(matches!(style.height, Some(Length::Auto)));
    assert!(matches!(style.padding_left, Some(Length::Length(Amount::Held(0)))));
    assert!(matches!(style.font_size, Amount::Written(text) if text == "20"));
    assert!(style.background.is_none());
    let plain = Style::default();
    assert!(matches!(plain.font_size, Amount::Written(text) if text == "60"));
    assert!(plain.width.is_none());
}

fn parse_screen(text: &str) -> Result<UIScreen, UIError<StyleError<String>>> {
    let textures = textures();
    let mut recipes: LoadRegistry<RecipeData> = LoadRegistry::default();
    recipes.register("chair".to_string(), String::new());
    let research: LoadRegistry<ResearchData> = LoadRegistry::default();
    let mut styles: LoadRegistry<UIStyleList> = LoadRegistry::default();
    styles.register("wide".to_string(), String::new());
    let registries = UIRegistries {
        textures: &textures,
        recipes: &recipes,
        research: &research,
        styles: &styles,
    };
    UIScreen::parse(text, &registries)
}

#[test]
fn screens_are_read() {
    let screen = parse_screen(
        "<box style='width: 5'>\n  <label class=' wide '>{power} left</label>\
         <box><slot id='3'/><slot id='trash'/></box>\
         <craft recipes='chair'/><craft recipes='cheat_menu'/>\
         <buttton property='level' value='-1' mode='add'>up {level}</buttton></box>",
    )
    .unwrap();
    assert_eq!(screen.display_properties, vec!["power".to_string(), "level".to_string()]);
    assert_eq!(screen.button_properties, vec!["level".to_string()]);
    assert_eq!(screen.root.style.rules.len(), 1);
    let children = match &screen.root.element_type {
        UIElementType::Box(children) => children,
        _ => panic!("the root is a box"),
    };
    assert_eq!(children.len(), 5);
    assert!(matches!(&children[0].element_type, UIElementType::Label(text) if text == "{power} left"));
    assert_eq!(children[0].style_classes.len(), 1);
    match &children[1].element_type {
        UIElementType::Box(slots) => {
            assert_eq!(slots.len(), 2);
            assert!(matches!(slots[0].element_type, UIElementType::ItemSlot { slot: SlotId::Id(3) }));
            assert!(matches!(slots[1].element_type, UIElementType::ItemSlot { slot: SlotId::Trash }));
        }
        _ => panic!("there is a box inside"),
    }
    assert!(matches!(
        &children[2].element_type,
        UIElementType::CraftArea { recipes: CraftAreaRecipes::Recipes(KeyGroup::Single(_)) }
    ));
    assert!(matches!(
        &children[3].element_type,
        UIElementType::CraftArea { recipes: CraftAreaRecipes::CheatMenu }
    ));
    match &children[4].element_type {
        UIElementType::Button { text, property, value, modify_mode } => {
            assert_eq!((text.as_str(), property.as_str()), ("up {level}", "level"));
            assert_eq!(*value, 65535);
            assert!(matches!(modify_mode, PropertyModifyMode::Add));
        }
        _ => panic!("there is a button"),
    }
    assert_ne!(children[0].uuid, children[1].uuid);
    assert_eq!((children[0].uuid >> 76) & 15, 4);
    assert_eq!((children[0].uuid >> 62) & 3, 2);
}

#[test]
fn broken_screens_are_refused() {
    assert!(matches!(parse_screen("<box>"), Err(UIError::Document)));
    assert!(matches!(parse_screen("<window/>"), Err(UIError::Malformed)));
    assert!(matches!(parse_screen("<label/>"), Err(UIError::Malformed)));
    assert!(matches!(parse_screen("<slot id='x'/>"), Err(UIError::Malformed)));
    assert!(matches!(parse_screen("<craft recipes='table'/>"), Err(UIError::Malformed)));
    assert!(matches!(parse_screen("<box class='thin'/>"), Err(UIError::Malformed)));
    assert!(matches!(
        parse_screen("<box><box style='color: red'/></box>"),
        Err(UIError::Style(StyleError::UnknownRule(name))) if name == "color"
    ));
}

#[test]
fn weights_decide() {
    let weights = vec![2, 0, 3];
    assert_eq!(get_random(&weights, 0), Some(0));
    assert_eq!(get_random(&weights, 1), Some(0));
    assert_eq!(get_random(&weights, 2), Some(2));
    assert_eq!(get_random(&weights, 4), Some(2));
    assert_eq!(get_random(&weights, 5), None);
    assert_eq!(get_random_weighted_list(&vec![3, 9, 3, 1]), vec![1, 0, 2, 3]);
    assert_eq!(sorted_order(&vec![3, 9, 3, 1], false), vec![3, 0, 2, 1]);
    let road = RoadPlacementEntry { weight: 10, weight_center_distance_bias: -3, block: None };
    assert_eq!(road.get_weight(2), 4);
    assert_eq!(road.get_weight(5), 0);
}

#[test]
fn texts_are_taken_apart() {
    assert_eq!(text::lines("a\r\nb\n"), vec!["a", "b"]);
    assert_eq!(text::split("a,,b", ','), vec!["a", "", "b"]);
    assert_eq!(text::words(" a  b "), vec!["a", "b"]);
    assert_eq!(text::trim("\t a b \n"), "a b");
    assert_eq!(text::split_once("a=b=c", '='), Some(("a", "b=c")));
    assert_eq!(text::before("a#b", '#'), "a");
    assert_eq!(text::parse_i32("-2147483648"), Some(i32::MIN));
    assert_eq!(text::parse_i32("2147483648"), None);
    assert_eq!(text::parse_u16("65536"), None);
    assert_eq!(text::parse_usize("+12"), Some(12));
    assert!(text::is_real("-1.5e3"));
    assert!(text::is_real("inf"));
    assert!(!text::is_real("1.5x"));
    assert!(text::contains("banana", "nan"));
    assert!(!text::contains("banana", "nab"));
    assert_eq!(text::from_chars(&vec!['\u{e9}', 'b']), "\u{e9}b");
    assert!(text::starts_with_text("banana", "ban"));
    assert!(text::ends_with_text("banana", "ana"));
}

fn screen_with_item() -> ScreenData<i64> {
    let item = ClientItem {
        item: Key::from_index(1),
        count: 7,
        description: "old\nworn".to_string(),
    };
    ScreenData::open(Key::from_index(0), vec![Some(item), None], PropertyMap::new(), 0)
}

#[test]
fn slots_are_shown_and_dragged() {
    let titles = vec!["Oak".to_string(), "Ash".to_string()];
    let mut screen = screen_with_item();
    let mut buttons = buttons();
    let touch = Touch { buttons: &buttons, is_inside: true };
    let frame = render_slot(&mut screen, SlotId::Id(0), Some(touch), &titles);
    assert!(frame.message.is_none());
    assert_eq!(frame.tooltip.unwrap(), vec!["Ash", "old", "worn"]);
    assert_eq!(frame.draws, vec![(ItemPlace::Slot, 7)]);
    let frame = render_slot(&mut screen, SlotId::Id(0), None, &titles);
    assert!(frame.tooltip.is_none());
    buttons.press(MouseButton::Right.code(), 0);
    let touch = Touch { buttons: &buttons, is_inside: true };
    let frame = render_slot(&mut screen, SlotId::Id(0), Some(touch), &titles);
    assert!(frame.tooltip.is_none());
    assert_eq!(screen.selected_slot, Some((0, MouseButton::Right)));
    screen.predict(10, |time| if time > 1 { Some(time - 1) } else { None });
    buttons.frame_clear(|time| time);
    buttons.release(MouseButton::Right.code());
    let touch = Touch { buttons: &buttons, is_inside: true };
    let frame = render_slot(&mut screen, SlotId::Id(1), Some(touch), &titles);
    assert!(matches!(
        frame.message,
        Some(NetworkMessageC2S::MoveItem { from: 0, to: 1, mode: ItemMoveMode::Half })
    ));
    assert!(frame.draws.is_empty());
    let touch = Touch { buttons: &buttons, is_inside: false };
    let frame = render_slot(&mut screen, SlotId::Id(0), Some(touch), &titles);
    assert_eq!(frame.draws, vec![(ItemPlace::Slot, 3), (ItemPlace::Cursor, 4)]);
}

#[test]
fn fields_are_shown_and_selected() {
    let mut field = TextField::new();
    let mut buttons = buttons();
    let keys = vec![TextKey::Character('a'), TextKey::Character('b')];
    assert_eq!(render_field::<i64>(&mut field, true, None, &keys), None);
    assert!(field.text.is_empty());
    buttons.press(MouseButton::Left.code(), 0);
    let touch = Touch { buttons: &buttons, is_inside: true };
    assert_eq!(render_field(&mut field, true, Some(touch), &keys), None);
    assert!(field.selected);
    assert_eq!((field.text.clone(), field.text_cursor), (vec!['a', 'b'], 2));
    assert_eq!(render_field::<i64>(&mut field, true, None, &keys), Some(2));
    assert_eq!(render_field::<i64>(&mut field, false, None, &keys), None);
    let touch = Touch { buttons: &buttons, is_inside: false };
    assert_eq!(render_field(&mut field, true, Some(touch), &keys), Some(2));
    assert!(!field.selected);
    assert_eq!(field.text.len(), 2);
}

#[test]
fn elements_list_their_entries() {
    let mut items: LoadRegistry<ItemData> = LoadRegistry::default();
    items.register("stick".to_string(), String::new());
    items.register("stone".to_string(), String::new());
    let mut recipes: LoadRegistry<RecipeData> = LoadRegistry::default();
    recipes.register("axe".to_string(), String::new());
    recipes.register("saw".to_string(), String::new());
    let research: LoadRegistry<ResearchData> = LoadRegistry::default();
    let list = |element: &UIElementType| list_entries(element, &items, &recipes, &research);
    let cheats = UIElementType::CraftArea { recipes: CraftAreaRecipes::CheatMenu };
    let all = list(&cheats);
    assert_eq!(all.len(), 2);
    assert!(matches!(all[1], EntryKey::Item(item) if item.numeric_id() == 1));
    let saw = KeyGroup::parse(&recipes, "saw").unwrap();
    let crafts = list(&UIElementType::CraftArea { recipes: CraftAreaRecipes::Recipes(saw) });
    assert_eq!(crafts.len(), 1);
    assert!(matches!(crafts[0], EntryKey::Recipe(recipe) if recipe.numeric_id() == 1));
    assert!(list(&UIElementType::ResearchTree { research: KeyGroup::Empty }).is_empty());
    assert!(list(&UIElementType::Label("text".to_string())).is_empty());
}

#[test]
fn elements_are_shown_and_touched() {
    let titles = vec!["Oak".to_string(), "Ash".to_string()];
    let mut texts = PropertyMap::new();
    texts.insert("heat".to_string(), "40".to_string());
    let entries = vec![EntryKey::Recipe(Key::from_index(3)), EntryKey::Recipe(Key::from_index(5))];
    let over = vec![false, true];
    let mut screen = screen_with_item();
    let mut buttons = buttons();
    buttons.press(MouseButton::Left.code(), 0);
    let scene = Scene {
        touch: Some(Touch { buttons: &buttons, is_inside: true }),
        texts: &texts,
        titles: &titles,
        entries: &entries,
        over: &over,
    };
    let area = UIElementType::CraftArea { recipes: CraftAreaRecipes::CheatMenu };
    match render_element(&area, &mut screen, &scene) {
        ElementFrame::Entries { messages, named } => {
            assert_eq!(messages.len(), 1);
            match &messages[0] {
                NetworkMessageC2S::Craft { recipe, count } => {
                    assert_eq!((recipe.numeric_id(), *count), (5, 1));
                }
                _ => panic!("a recipe was clicked"),
            }
            assert_eq!(named, vec![1]);
        }
        _ => panic!("a grid has entries"),
    }
    let label = UIElementType::Label("heat {heat}".to_string());
    match render_element(&label, &mut screen, &scene) {
        ElementFrame::Text { text, message } => {
            assert_eq!(text, "heat 40");
            assert!(message.is_none());
        }
        _ => panic!("a label is a text"),
    }
    let button = UIElementType::Button {
        text: "more".to_string(),
        property: "heat".to_string(),
        value: 5,
        modify_mode: PropertyModifyMode::Add,
    };
    match render_element(&button, &mut screen, &scene) {
        ElementFrame::Text { text, message } => {
            assert_eq!(text, "more");
            assert!(matches!(message, Some(NetworkMessageC2S::UIButtonPress { value: 5, .. })));
        }
        _ => panic!("a button is a text"),
    }
    assert!(matches!(
        render_element(&UIElementType::Box(Vec::new()), &mut screen, &scene),
        ElementFrame::Children
    ));
    let slot = UIElementType::ItemSlot { slot: SlotId::Id(0) };
    assert!(matches!(
        render_element(&slot, &mut screen, &scene),
        ElementFrame::Slot(frame) if frame.tooltip.is_none() && frame.draws.len() == 1
    ));
    assert_eq!(screen.selected_slot, Some((0, MouseButton::Left)));
}
