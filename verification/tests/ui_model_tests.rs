use voxel_realm::block::{block_material_table, create_all_block, Block, BlockInfo, BlockType, Instance};
use voxel_realm::coord::{get_chunk_coord, get_local_coord, relative_to_absolute, BlockPos};
use voxel_realm::inventory::{inventory_icons, move_slot, InventoryIcon, Player};
use voxel_realm::item::{Item, ItemType};

#[test]
fn material_table_lists_six_faces_per_kind() {
    let all_block = create_all_block();
    let table = block_material_table(&all_block);
    assert_eq!(table.len(), 42);
    // empty kind: the missing texture everywhere
    assert_eq!(&table[0..6], &[999, 999, 999, 999, 999, 999]);
    // grass: side, top, side, dirt below, side, side
    assert_eq!(&table[18..24], &[2, 3, 2, 4, 2, 2]);
    // birch log: bark on the sides, rings on top and bottom
    assert_eq!(&table[30..36], &[6, 5, 6, 5, 6, 6]);
    assert_eq!(&table[36..42], &[7, 7, 7, 7, 7, 7]);
}

#[test]
fn material_table_of_a_short_list_pads_with_zero() {
    let mut all_block = create_all_block();
    all_block.truncate(2);
    let table = block_material_table(&all_block);
    assert_eq!(table.len(), 42);
    assert_eq!(&table[6..12], &[0, 0, 0, 0, 0, 0]);
    assert!(table[12..].iter().all(|&t| t == 0));
}

#[test]
fn player_model_indices() {
    let indices = Player::create_indices();
    assert_eq!(indices.len(), 216);
    assert_eq!(&indices[0..12], &[0, 1, 2, 0, 2, 3, 4, 5, 6, 4, 6, 7]);
    assert_eq!(&indices[30..36], &[20, 21, 22, 20, 22, 23]);
    // the second box starts from corner 24
    assert_eq!(&indices[36..42], &[24, 25, 26, 24, 26, 27]);
    assert_eq!(indices[215], 143);
    assert!(indices.iter().all(|&i| i < 144));
}

#[test]
fn inventory_icons_stop_at_the_first_empty_slot() {
    let all_block = create_all_block();
    let player = Player::new(&all_block);
    let icons = inventory_icons(&player.all_item_inventory);
    assert_eq!(icons.len(), 6);
    assert_eq!(icons[0], InventoryIcon { row: 0, col: 0, block_type: 1 });
    assert_eq!(icons[2], InventoryIcon { row: 0, col: 2, block_type: 6 });
    assert_eq!(icons[5], InventoryIcon { row: 0, col: 5, block_type: 2 });
}

#[test]
fn inventory_icons_run_over_rows() {
    let all_block = create_all_block();
    let stone = Item::new(ItemType::Block(all_block[BlockType::Stone as usize]));
    let dirt = Item::new(ItemType::Block(all_block[BlockType::Dirt as usize]));
    let empty = Item::new(ItemType::Empty);
    let inv = vec![vec![stone, stone], vec![dirt, empty, stone], vec![stone]];
    let icons = inventory_icons(&inv);
    assert_eq!(
        icons,
        vec![
            InventoryIcon { row: 0, col: 0, block_type: 2 },
            InventoryIcon { row: 0, col: 1, block_type: 2 },
            InventoryIcon { row: 1, col: 0, block_type: 4 },
        ]
    );
    let full = vec![vec![stone], vec![], vec![dirt]];
    let icons = inventory_icons(&full);
    assert_eq!(icons.len(), 2);
    assert_eq!(icons[1], InventoryIcon { row: 2, col: 0, block_type: 4 });
    assert!(inventory_icons(&Vec::new()).is_empty());
}

#[test]
fn hotbar_scroll_round_trip() {
    for s in 0..10 {
        assert_eq!(move_slot(move_slot(s, -1), 1), s);
        assert_eq!(move_slot(move_slot(s, 1), -1), s);
    }
    assert_eq!(move_slot(0, -1), 9);
    assert_eq!(move_slot(9, 1), 0);
    assert_eq!(move_slot(3, -25), -2);
}

#[test]
fn block_position_splits_into_chunk_and_local() {
    for &(x, z) in &[(0, 0), (-1, 17), (-16, -17), (31, -32)] {
        let p = BlockPos::new(x, 40, z);
        let c = get_chunk_coord(x, z);
        let l = get_local_coord(p);
        assert_eq!(relative_to_absolute(c, l.x, l.y, l.z), p);
    }
}

#[test]
fn default_values_are_empty() {
    let info = BlockInfo::default();
    assert_eq!(info.name, "");
    assert_eq!(info.block_type, BlockType::Empty);
    assert_eq!(info.tex_offset, [0; 6]);
    assert_eq!(Block::default().tp, BlockType::Empty);
    assert_eq!(Instance::default(), Instance::empty());
    assert_eq!(Instance::default().block_type, 0);
    assert_eq!(BlockType::default(), BlockType::Empty);
}
