use voxel_realm::block::{Block, BlockType};
use voxel_realm::coord::{relative_to_index, ChunkCoord};
use voxel_realm::realm::RealmData;
use voxel_realm::streaming::{finish_shift, ChunkUpdate, ShiftOutcome};
use voxel_realm::terrain::{generate_flat_blocks, generate_terrain_blocks};

fn at(blocks: &[Block], x: i32, y: i32, z: i32) -> BlockType {
    blocks[relative_to_index(x, y, z)].tp
}

fn column(x: i32, z: i32) -> usize {
    (x * 16 + z) as usize
}

#[test]
fn ground_layers_of_generated_terrain() {
    let heights = vec![10; 256];
    let trees = vec![None; 256];
    let data = generate_terrain_blocks(&heights, &trees);
    let b = &data.blocks;
    assert_eq!(b.len(), 65536);
    for (x, z) in [(0, 0), (7, 9), (15, 15)] {
        assert_eq!(at(b, x, 0, z), BlockType::UnderStone);
        for y in 1..=5 {
            assert_eq!(at(b, x, y, z), BlockType::Stone);
        }
        for y in 6..=8 {
            assert_eq!(at(b, x, y, z), BlockType::Dirt);
        }
        assert_eq!(at(b, x, 9, z), BlockType::Grass);
        assert_eq!(at(b, x, 10, z), BlockType::Empty);
    }
}

#[test]
fn low_columns_keep_bedrock() {
    let mut heights = vec![3; 256];
    heights[column(4, 4)] = 0;
    heights[column(4, 5)] = 1;
    let data = generate_terrain_blocks(&heights, &vec![None; 256]);
    let b = &data.blocks;
    assert_eq!(at(b, 4, 0, 4), BlockType::UnderStone);
    assert_eq!(at(b, 4, 1, 4), BlockType::Empty);
    assert_eq!(at(b, 4, 0, 5), BlockType::UnderStone);
    assert_eq!(at(b, 0, 1, 0), BlockType::Dirt);
    assert_eq!(at(b, 0, 2, 0), BlockType::Grass);
}

#[test]
fn birch_trees_are_planted_apart() {
    let heights = vec![10; 256];
    let mut trees = vec![None; 256];
    trees[column(5, 5)] = Some(4);
    trees[column(6, 6)] = Some(5);
    trees[column(10, 10)] = Some(4);
    trees[column(1, 1)] = Some(4);
    let data = generate_terrain_blocks(&heights, &trees);
    let b = &data.blocks;
    for y in 10..14 {
        assert_eq!(at(b, 5, y, 5), BlockType::BirchLog);
    }
    assert_eq!(at(b, 3, 12, 3), BlockType::BirchLeaves);
    assert_eq!(at(b, 3, 13, 3), BlockType::Empty);
    assert_eq!(at(b, 4, 13, 4), BlockType::BirchLeaves);
    assert_eq!(at(b, 5, 14, 5), BlockType::BirchLeaves);
    assert_eq!(at(b, 6, 14, 6), BlockType::Empty);
    assert_eq!(at(b, 6, 10, 6), BlockType::Empty);
    assert_eq!(at(b, 6, 12, 6), BlockType::BirchLeaves);
    assert_eq!(at(b, 10, 10, 10), BlockType::BirchLog);
    assert_eq!(at(b, 1, 10, 1), BlockType::Empty);
    assert_eq!(at(b, 5, 9, 5), BlockType::Grass);
}

#[test]
fn every_generated_column_has_bedrock() {
    let heights: Vec<i32> = (0..256).map(|c| 20 + (c % 7) as i32).collect();
    let mut trees = vec![None; 256];
    trees[column(4, 4)] = Some(6);
    trees[column(9, 11)] = Some(4);
    let data = generate_terrain_blocks(&heights, &trees);
    for x in 0..16 {
        for z in 0..16 {
            assert_eq!(at(&data.blocks, x, 0, z), BlockType::UnderStone);
        }
    }
}

#[test]
fn flat_world_layers() {
    let data = generate_flat_blocks();
    let b = &data.blocks;
    assert_eq!(at(b, 8, 0, 8), BlockType::UnderStone);
    assert_eq!(at(b, 8, 1, 8), BlockType::Stone);
    assert_eq!(at(b, 8, 2, 8), BlockType::Dirt);
    assert_eq!(at(b, 8, 3, 8), BlockType::Grass);
    assert_eq!(at(b, 8, 4, 8), BlockType::Empty);
    assert_eq!(b.iter().filter(|b| b.tp != BlockType::Empty).count(), 1024);
}

#[test]
fn world_follows_the_player() {
    let data = RealmData::empty();
    assert_eq!(data.plan_update(ChunkCoord::new(0, 0)), ChunkUpdate::Stay);
    assert_eq!(data.plan_update(ChunkCoord::new(1, -1)), ChunkUpdate::Shift { dx: 1, dz: -1 });
    assert_eq!(data.plan_update(ChunkCoord::new(0, 1)), ChunkUpdate::Shift { dx: 0, dz: 1 });
    assert_eq!(data.plan_update(ChunkCoord::new(2, 0)), ChunkUpdate::Reload);
    assert_eq!(data.plan_update(ChunkCoord::new(-1, -3)), ChunkUpdate::Reload);
}

#[test]
fn shifting_the_loaded_square() {
    let data = RealmData::empty();
    let c = |x, z| ChunkCoord::new(x, z);
    assert_eq!(
        data.shift_plan(1, 0),
        vec![(c(2, -1), c(-1, -1)), (c(2, 0), c(-1, 0)), (c(2, 1), c(-1, 1))]
    );
    assert_eq!(
        data.shift_plan(0, -1),
        vec![(c(-1, -2), c(-1, 1)), (c(0, -2), c(0, 1)), (c(1, -2), c(1, 1))]
    );
    let diagonal = data.shift_plan(-1, 1);
    assert_eq!(diagonal.len(), 6);
    assert_eq!(diagonal[0], (c(-1, 2), c(-1, -1)));
    assert_eq!(diagonal[3], (c(-2, -1), c(1, -1)));
    assert!(data.shift_plan(0, 0).is_empty());
}

#[test]
fn reloading_the_square_around_a_chunk() {
    let data = RealmData::empty();
    let plan = data.reload_plan(&ChunkCoord::new(5, 5));
    let expected: Vec<ChunkCoord> = vec![
        ChunkCoord::new(4, 4),
        ChunkCoord::new(4, 5),
        ChunkCoord::new(4, 6),
        ChunkCoord::new(5, 4),
        ChunkCoord::new(5, 5),
        ChunkCoord::new(5, 6),
        ChunkCoord::new(6, 4),
        ChunkCoord::new(6, 5),
        ChunkCoord::new(6, 6),
    ];
    assert_eq!(plan, expected);
}

#[test]
fn terrain_is_solid_below_the_ground_and_air_above_the_trees() {
    let heights: Vec<i32> = (0..256).map(|c| 20 + (c % 7) as i32).collect();
    let mut trees = vec![None; 256];
    trees[column(5, 5)] = Some(6);
    trees[column(10, 9)] = Some(4);
    let data = generate_terrain_blocks(&heights, &trees);
    let b = &data.blocks;
    let top = 26 + 6 + 1;
    for x in 0..16 {
        for z in 0..16 {
            for y in 0..heights[column(x, z)] {
                assert_ne!(at(b, x, y, z), BlockType::Empty);
            }
            for y in top..256 {
                assert_eq!(at(b, x, y, z), BlockType::Empty);
            }
        }
    }
    assert_eq!(at(b, 5, heights[column(5, 5)], 5), BlockType::BirchLog);
}

#[test]
fn a_shift_moves_the_centre_only_once_every_chunk_is_loaded() {
    let c = ChunkCoord::new(3, -2);
    assert_eq!(
        finish_shift(c, 1, 0, true),
        ShiftOutcome { centre: ChunkCoord::new(4, -2), pre_dx: 1, pre_dz: 0, is_loading: false }
    );
    assert_eq!(
        finish_shift(c, -1, 1, false),
        ShiftOutcome { centre: c, pre_dx: -1, pre_dz: 1, is_loading: true }
    );
}
