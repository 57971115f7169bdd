use voxel_realm::block::{create_all_block, Block, BlockMaterials, BlockType, BLOCK_NUM};
use voxel_realm::control::{ControlAction, ControlEvent, ControlKey, ControlState};
use voxel_realm::coord::BlockPos;
use voxel_realm::inventory::{move_slot, Player};
use voxel_realm::item::{Item, ItemType};
use voxel_realm::realm::RealmData;
use voxel_realm::ui_state::{UiAction, UiEvent, UiState};

#[test]
fn block_table_lists_every_kind() {
    let all = create_all_block();
    assert_eq!(all.len(), BLOCK_NUM);
    let names: Vec<&str> = all.iter().map(|b| b.name).collect();
    assert_eq!(names, vec!["Empty", "bedrock", "stone", "grass_block_side", "dirt", "birch_log", "birch_leaves"]);
    for (i, info) in all.iter().enumerate() {
        assert_eq!(info.block_type.id() as usize, i);
    }
    assert_eq!(all[0].tex_offset, [999; 6]);
    assert_eq!(all[3].tex_offset, [2, 3, 2, 4, 2, 2]);
    assert_eq!(all[5].tex_offset, [6, 5, 6, 5, 6, 6]);
    assert_eq!(all[6].tex_offset, [7; 6]);
}

#[test]
fn block_kinds() {
    assert!(BlockType::Empty.is_transparent());
    assert!(!BlockType::BirchLeaves.is_transparent());
    assert_eq!(BlockType::from_id(4), BlockType::Dirt);
    assert_eq!(BlockType::Grass.id(), 3);
    assert_eq!(BlockType::default(), BlockType::Empty);
    assert_eq!(BlockMaterials::Empty.index(), 999);
    assert_eq!(BlockMaterials::GrassBlockTop.index(), 3);
    assert_eq!(Block::new(BlockType::Stone).tp, BlockType::Stone);
}

#[test]
fn item_kinds() {
    let all = create_all_block();
    assert_eq!(Item::new(ItemType::Empty).item_type.get_type(), 0);
    assert_eq!(Item::new(ItemType::Block(all[6])).item_type.get_type(), 6);
}

#[test]
fn new_player_carries_the_starting_items() {
    let all = create_all_block();
    let p = Player::new(&all);
    assert_eq!(p.slected_hotbar, 0);
    let hotbar: Vec<u32> = p.hotbar.iter().map(|i| i.item_type.get_type()).collect();
    assert_eq!(hotbar, vec![3, 4, 1, 5, 0, 0, 0, 0, 0, 0]);
    assert_eq!(p.all_item_inventory.len(), 4);
    let first: Vec<u32> = p.all_item_inventory[0].iter().map(|i| i.item_type.get_type()).collect();
    assert_eq!(first, vec![1, 5, 6, 3, 4, 2, 0, 0, 0, 0]);
    assert!(p.all_item_inventory[3].iter().all(|i| i.item_type.get_type() == 0));
}

#[test]
fn hotbar_selection_wraps() {
    let all = create_all_block();
    let mut p = Player::new(&all);
    p.update_selected_hotbar(-1);
    assert_eq!(p.slected_hotbar, 9);
    p.update_selected_hotbar(1);
    assert_eq!(p.slected_hotbar, 0);
    assert_eq!(move_slot(0, -15), -5);
    assert_eq!(move_slot(4, 7), 1);
}

#[test]
fn keys_open_and_close_panels() {
    let all = create_all_block();
    let mut p = Player::new(&all);
    let mut ui = UiState::new();
    assert_eq!(ui.process_events(UiEvent::KeyE, false, &mut p, &all), (true, UiAction::Nothing));
    assert!(ui.is_invenory_open && !ui.is_hotbar_open);
    assert_eq!(ui.process_events(UiEvent::KeyEscape, false, &mut p, &all), (true, UiAction::Nothing));
    assert!(!ui.is_invenory_open && ui.is_hotbar_open);
    ui.process_events(UiEvent::KeyE, false, &mut p, &all);
    ui.process_events(UiEvent::KeyE, true, &mut p, &all);
    assert!(!ui.is_invenory_open && ui.is_hotbar_open);
    assert_eq!(ui.process_events(UiEvent::KeyF3 { pressed: true }, true, &mut p, &all), (true, UiAction::Nothing));
    assert!(ui.is_debug_info_open);
    assert_eq!(ui.process_events(UiEvent::KeyF3 { pressed: false }, true, &mut p, &all), (false, UiAction::Nothing));
    assert!(ui.is_debug_info_open);
    assert_eq!(ui.process_events(UiEvent::OtherKey, true, &mut p, &all), (false, UiAction::Nothing));
}

#[test]
fn dragging_a_block_into_the_hotbar() {
    let all = create_all_block();
    let mut p = Player::new(&all);
    let mut ui = UiState::new();
    ui.process_events(UiEvent::KeyE, false, &mut p, &all);
    assert_eq!(
        ui.process_events(UiEvent::LeftPress { slot_x: 3, slot_y: 0 }, false, &mut p, &all),
        (true, UiAction::StartDragging { block_type: 3 })
    );
    assert!(ui.is_dragging);
    assert_eq!(ui.process_events(UiEvent::CursorMoved, false, &mut p, &all), (false, UiAction::MoveDragging));
    assert_eq!(
        ui.process_events(UiEvent::Release { slot_x: 7, slot_y: 4 }, false, &mut p, &all),
        (true, UiAction::HotbarChanged)
    );
    assert!(!ui.is_dragging);
    assert_eq!(p.hotbar[7].item_type.get_type(), 3);
}

#[test]
fn dropping_outside_the_hotbar_changes_nothing() {
    let all = create_all_block();
    let mut p = Player::new(&all);
    let mut ui = UiState::new();
    ui.process_events(UiEvent::KeyE, false, &mut p, &all);
    ui.process_events(UiEvent::LeftPress { slot_x: 0, slot_y: 0 }, false, &mut p, &all);
    assert_eq!(
        ui.process_events(UiEvent::Release { slot_x: 12, slot_y: 4 }, false, &mut p, &all),
        (true, UiAction::Nothing)
    );
    assert!(!ui.is_dragging);
    assert_eq!(p.hotbar[9].item_type.get_type(), 0);
    assert_eq!(
        ui.process_events(UiEvent::LeftPress { slot_x: 8, slot_y: 0 }, false, &mut p, &all),
        (true, UiAction::Nothing)
    );
    assert!(!ui.is_dragging);
    assert_eq!(
        ui.process_events(UiEvent::LeftPress { slot_x: 30, slot_y: 6 }, false, &mut p, &all),
        (true, UiAction::Nothing)
    );
}

#[test]
fn wheel_moves_the_hotbar_selection() {
    let all = create_all_block();
    let mut p = Player::new(&all);
    let mut ui = UiState::new();
    assert_eq!(
        ui.process_events(UiEvent::ScrollLines { up: true }, true, &mut p, &all),
        (true, UiAction::SelectionMoved { slot: 9 })
    );
    assert_eq!(p.slected_hotbar, 9);
    assert_eq!(
        ui.process_events(UiEvent::ScrollLines { up: false }, true, &mut p, &all),
        (true, UiAction::SelectionMoved { slot: 0 })
    );
    assert_eq!(p.slected_hotbar, 0);
    assert_eq!(ui.process_events(UiEvent::ScrollPixels, true, &mut p, &all), (false, UiAction::Nothing));
}

#[test]
fn movement_keys_and_actions() {
    let mut c = ControlState::new();
    assert_eq!(c.process_events(ControlEvent::Key { key: ControlKey::W, pressed: true }), (true, ControlAction::Nothing));
    assert!(c.is_forward_pressed);
    c.process_events(ControlEvent::Key { key: ControlKey::W, pressed: false });
    assert!(!c.is_forward_pressed);
    assert!(c.event_walk_left(true) && c.is_left_pressed);
    assert!(c.event_walk_backward(true) && c.is_backward_pressed);
    assert!(c.event_walk_right(true) && c.is_right_pressed);
    assert_eq!(c.process_events(ControlEvent::Key { key: ControlKey::Space, pressed: true }), (true, ControlAction::Jump));
    assert_eq!(c.event_jump(false), (true, ControlAction::Nothing));
    assert_eq!(
        c.process_events(ControlEvent::Key { key: ControlKey::ShiftLeft, pressed: true }),
        (false, ControlAction::Nothing)
    );
    c.process_events(ControlEvent::Key { key: ControlKey::F5, pressed: true });
    assert!(c.is_debug_window_open);
    c.process_events(ControlEvent::Key { key: ControlKey::E, pressed: true });
    assert!(!c.is_fov);
    c.process_events(ControlEvent::Key { key: ControlKey::E, pressed: false });
    assert!(!c.is_fov);
    assert_eq!(c.process_events(ControlEvent::CursorMoved), (false, ControlAction::Nothing));
    assert_eq!(c.process_events(ControlEvent::Focused { focused: true }), (true, ControlAction::Nothing));
    assert_eq!(c.process_events(ControlEvent::CursorMoved), (true, ControlAction::RotateView));
}

#[test]
fn mouse_buttons_break_and_place_at_the_selection() {
    let mut data = RealmData::empty();
    let mut c = ControlState::new();
    assert_eq!(c.process_events(ControlEvent::LeftPress), (false, ControlAction::Nothing));
    c.update_selection(&mut data, Some((BlockPos::new(1, 2, 3), BlockPos::new(1, 3, 3))));
    assert!(data.is_wf_visible);
    assert_eq!(data.wf_position, BlockPos::new(1, 2, 3));
    assert_eq!(
        c.process_events(ControlEvent::LeftPress),
        (true, ControlAction::PlaceBlock { pos: BlockPos::new(1, 2, 3), block: Block::empty() })
    );
    assert_eq!(
        c.process_events(ControlEvent::RightPress),
        (true, ControlAction::PlaceBlock { pos: BlockPos::new(1, 3, 3), block: Block::new(BlockType::Stone) })
    );
    c.update_selection(&mut data, None);
    assert!(!data.is_wf_visible);
    assert_eq!(c.process_events(ControlEvent::RightPress), (false, ControlAction::Nothing));
}

#[test]
fn events_the_panels_can_take() {
    let all = create_all_block();
    let mut p = Player::new(&all);
    let mut ui = UiState::new();
    // closed inventory: any slot is fine
    assert!(ui.can_process(UiEvent::LeftPress { slot_x: 30, slot_y: 2 }, &p, &all));
    ui.process_events(UiEvent::KeyE, false, &mut p, &all);
    // open inventory: a press on a grid row needs a slot of that row
    assert!(ui.can_process(UiEvent::LeftPress { slot_x: 9, slot_y: 3 }, &p, &all));
    assert!(!ui.can_process(UiEvent::LeftPress { slot_x: 10, slot_y: 3 }, &p, &all));
    assert!(ui.can_process(UiEvent::LeftPress { slot_x: 30, slot_y: 6 }, &p, &all));
    ui.process_events(UiEvent::LeftPress { slot_x: 1, slot_y: 0 }, false, &mut p, &all);
    assert!(ui.can_process(UiEvent::Release { slot_x: 9, slot_y: 4 }, &p, &all));
    p.hotbar.truncate(5);
    assert!(!ui.can_process(UiEvent::Release { slot_x: 7, slot_y: 4 }, &p, &all));
    assert!(ui.can_process(UiEvent::ScrollLines { up: true }, &p, &all));
    p.slected_hotbar = i32::MAX;
    assert!(!ui.can_process(UiEvent::ScrollLines { up: true }, &p, &all));
    assert!(ui.can_process(UiEvent::CursorMoved, &p, &all));
}
