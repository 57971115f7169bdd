use voxel_realm::block::{Block, BlockType, Instance};
use voxel_realm::coord::{get_chunk_coord, get_local_coord, relative_to_index, BlockPos, ChunkCoord};
use voxel_realm::realm::{ChunkData, ChunkDataError, InitChunkStep, InstanceWrite, RealmData};
use noise::{NoiseFn, Perlin};
use voxel_realm::coord::CHUNK_SIZE;
use voxel_realm::terrain::{generate_flat_blocks, generate_terrain_blocks};

fn flat_world(chunks: &[(i32, i32)]) -> RealmData {
    let mut data = RealmData::empty();
    for &(x, z) in chunks {
        data.insert_chunk(ChunkCoord::new(x, z), generate_flat_blocks());
    }
    data
}

fn pos(x: i32, y: i32, z: i32) -> BlockPos {
    BlockPos::new(x, y, z)
}

#[test]
fn test_get_set_block() {
    let data = flat_world(&[(0, 0)]);
    assert_eq!(data.get_block(pos(0, 0, 0)).tp, BlockType::UnderStone);
    assert_eq!(data.get_block(pos(0, 1, 0)).tp, BlockType::Stone);
    assert_eq!(data.get_block(pos(0, 2, 0)).tp, BlockType::Dirt);
    assert_eq!(data.get_block(pos(0, 3, 0)).tp, BlockType::Grass);
    assert_eq!(data.get_block(pos(0, 0, -1)).tp, BlockType::Empty);
}

/// The terrain of chunk `coord` for `seed`, sampled as the game does.
fn terrain_chunk(coord: ChunkCoord, seed: u32) -> ChunkData {
    let perlin = Perlin::new(seed);
    let mut heights = Vec::new();
    let mut trees = Vec::new();
    for x in 0..CHUNK_SIZE {
        for z in 0..CHUNK_SIZE {
            let ax = x + coord.x * CHUNK_SIZE;
            let az = z + coord.z * CHUNK_SIZE;
            heights.push((perlin.get([ax as f64 / 32.0, az as f64 / 32.0]) * 8.0) as i32 + 32);
            let tree = perlin.get([(az + CHUNK_SIZE / 2) as f64 / 4.0, (ax + CHUNK_SIZE / 2) as f64 / 4.0]);
            trees.push(if tree > 0.80 { Some(((1.0 - tree) * 15.0 + 4.0) as i32) } else { None });
        }
    }
    generate_terrain_blocks(&heights, &trees)
}

/// The square of nine chunks around chunk (0, 0), in the order `RealmData::new` takes.
fn initial_square(seed: u32) -> Vec<ChunkData> {
    (0..9).map(|i| terrain_chunk(ChunkCoord::new(i / 3 - 1, i % 3 - 1), seed)).collect()
}

#[test]
fn test_get_block() {
    let data = RealmData::new(initial_square(2025318));
    assert_eq!(data.get_block(pos(-3, 0, -3)).tp, BlockType::UnderStone);
}

#[test]
fn new_world_loads_the_square_around_the_centre() {
    let data = RealmData::new(initial_square(2025318));
    assert_eq!(data.chunk_map.len(), 9);
    for x in -1..=1 {
        for z in -1..=1 {
            let chunk = data.get_chunk(&ChunkCoord::new(x, z)).unwrap();
            assert_eq!(chunk.offset_top, 0);
            assert!(chunk.is_fresh());
        }
    }
    assert!(data.get_chunk(&ChunkCoord::new(2, 0)).is_none());
    assert_eq!(data.center_chunk_pos, ChunkCoord::new(0, 0));
    assert_eq!(data.seed, 2025318);
    for &(x, z) in &[(-16, -16), (31, 31), (31, -16), (0, 0)] {
        assert_eq!(data.get_block(pos(x, 0, z)).tp, BlockType::UnderStone);
        assert_eq!(data.get_block(pos(x, 1, z)).tp, BlockType::Stone);
    }
    assert_eq!(data.get_block(pos(32, 0, 0)).tp, BlockType::Empty);
}

#[test]
fn new_world_keeps_each_chunk_of_the_square_in_place() {
    let mut square: Vec<ChunkData> = (0..9).map(|_| ChunkData::empty()).collect();
    square[7] = generate_flat_blocks();
    let data = RealmData::new(square);
    assert_eq!(data.get_block(pos(16, 0, 0)).tp, BlockType::UnderStone);
    assert_eq!(data.get_block(pos(31, 3, 15)).tp, BlockType::Grass);
    assert_eq!(data.get_block(pos(0, 0, 0)).tp, BlockType::Empty);
    assert_eq!(data.get_block(pos(16, 0, 16)).tp, BlockType::Empty);
}

#[test]
fn new_world_is_empty_and_centred() {
    let data = RealmData::empty();
    assert_eq!(data.chunk_map.len(), 0);
    assert_eq!(data.center_chunk_pos, ChunkCoord::new(0, 0));
    assert_eq!(data.chunk_rad, 1);
    assert_eq!(data.wf_max_len, 6);
    assert_eq!(data.seed, 2025318);
    assert_eq!(data.all_block.len(), 7);
    assert_eq!(data.get_block(pos(0, 0, 0)), Block::empty());
}

#[test]
fn chunk_and_local_coordinates_round_down() {
    assert_eq!(get_chunk_coord(15, 0), ChunkCoord::new(0, 0));
    assert_eq!(get_chunk_coord(16, -1), ChunkCoord::new(1, -1));
    assert_eq!(get_chunk_coord(-16, -17), ChunkCoord::new(-1, -2));
    assert_eq!(get_chunk_coord(i32::MIN, i32::MAX), ChunkCoord::new(-134217728, 134217727));
    assert_eq!(get_local_coord(pos(-1, 5, -17)), pos(15, 5, 15));
    assert_eq!(get_local_coord(pos(33, -2, 16)), pos(1, -2, 0));
    assert_eq!(relative_to_index(1, 2, 3), 4131);
    assert_eq!(relative_to_index(15, 255, 15), 65535);
}

#[test]
fn chunk_keys_are_distinct_and_decode() {
    let a = ChunkCoord::new(1, 2);
    assert_eq!(a.key(), 6442450946);
    assert_ne!(ChunkCoord::new(1, 0).key(), ChunkCoord::new(0, 1).key());
    for c in [ChunkCoord::new(-5, 7), ChunkCoord::new(i32::MIN, i32::MAX), ChunkCoord::new(0, -1)] {
        assert_eq!(ChunkCoord::from_key(c.key()), c);
    }
}

#[test]
fn chunk_data_needs_one_block_per_position() {
    let short = ChunkData::from_blocks(vec![Block::empty(); 10]);
    assert!(matches!(short, Err(ChunkDataError::WrongBlockCount)));
    let full = ChunkData::from_blocks(vec![Block::new(BlockType::Dirt); 65536]).unwrap();
    assert_eq!(full.get_block(3, 4, 5).tp, BlockType::Dirt);
}

#[test]
fn visible_faces_of_flat_world() {
    let data = flat_world(&[(0, 0)]);
    assert!(!data.has_any_visible_face(5, 1, 5));
    assert!(data.has_any_visible_face(5, 3, 5));
    assert!(data.has_any_visible_face(5, 0, 5));
    assert!(data.has_any_visible_face(0, 1, 5));
}

#[test]
fn create_instance_draws_shown_blocks_in_index_order() {
    let mut data = flat_world(&[(0, 0)]);
    let c = ChunkCoord::new(0, 0);
    assert!(data.get_chunk(&c).unwrap().is_fresh());
    data.create_instance(&c);
    let chunk = data.get_chunk(&c).unwrap();
    assert!(!chunk.is_fresh());
    assert_eq!(chunk.offset_top, 632);
    assert_eq!(chunk.instance[0], Instance { position: pos(0, 0, 0), block_type: 1 });
    assert_eq!(chunk.instance[631], Instance { position: pos(15, 3, 15), block_type: 3 });
    assert_eq!(chunk.offset_of(relative_to_index(5, 3, 5)), 233);
    assert_eq!(chunk.instance[233], Instance { position: pos(5, 3, 5), block_type: 3 });
    assert_eq!(chunk.offset_of(relative_to_index(5, 2, 5)), u64::MAX);
}

#[test]
fn drawing_a_chunk_twice_draws_each_shown_block_once() {
    let mut data = flat_world(&[(0, 0)]);
    let c = ChunkCoord::new(0, 0);
    data.create_instance(&c);
    let once = data.get_chunk(&c).unwrap().clone();
    data.create_instance(&c);
    let twice = data.get_chunk(&c).unwrap();
    assert_eq!(twice.offset_top, 632);
    assert_eq!(twice.instance, once.instance);
    for i in [0, relative_to_index(5, 3, 5), relative_to_index(5, 2, 5), relative_to_index(15, 3, 15)] {
        assert_eq!(twice.offset_of(i), once.offset_of(i));
    }
    data.load_all_instance();
    assert_eq!(data.get_chunk(&c).unwrap().offset_top, 632);
}

#[test]
fn load_all_instance_hides_faces_between_loaded_chunks() {
    let mut data = flat_world(&[(0, 0), (1, 0)]);
    data.load_all_instance();
    assert_eq!(data.get_chunk(&ChunkCoord::new(0, 0)).unwrap().offset_top, 604);
    assert_eq!(data.get_chunk(&ChunkCoord::new(1, 0)).unwrap().offset_top, 604);
}

#[test]
fn breaking_a_block_moves_the_last_instance_and_shows_neighbours() {
    let mut data = flat_world(&[(0, 0)]);
    let c = ChunkCoord::new(0, 0);
    data.create_instance(&c);
    let writes = data.place_block(pos(5, 3, 5), Block::empty());
    assert_eq!(
        writes,
        vec![
            InstanceWrite { chunk: c, offset: 233, instance: Instance { position: pos(15, 3, 15), block_type: 3 } },
            InstanceWrite { chunk: c, offset: 631, instance: Instance { position: pos(5, 2, 5), block_type: 4 } },
        ]
    );
    assert_eq!(data.get_block(pos(5, 3, 5)).tp, BlockType::Empty);
    let chunk = data.get_chunk(&c).unwrap();
    assert_eq!(chunk.offset_top, 632);
    assert_eq!(chunk.offset_of(relative_to_index(5, 3, 5)), u64::MAX);
    assert_eq!(chunk.offset_of(relative_to_index(15, 3, 15)), 233);
    assert_eq!(chunk.offset_of(relative_to_index(5, 2, 5)), 631);
    assert_eq!(chunk.instance[233], Instance { position: pos(15, 3, 15), block_type: 3 });
}

#[test]
fn placing_a_block_draws_it_last() {
    let mut data = flat_world(&[(0, 0)]);
    let c = ChunkCoord::new(0, 0);
    data.create_instance(&c);
    let writes = data.place_block(pos(5, 4, 5), Block::new(BlockType::Stone));
    let placed = Instance { position: pos(5, 4, 5), block_type: 2 };
    assert_eq!(writes, vec![InstanceWrite { chunk: c, offset: 632, instance: placed }]);
    assert_eq!(data.get_block(pos(5, 4, 5)).tp, BlockType::Stone);
    let chunk = data.get_chunk(&c).unwrap();
    assert_eq!(chunk.offset_top, 633);
    assert_eq!(chunk.instance[632], placed);
    assert_eq!(chunk.offset_of(relative_to_index(5, 4, 5)), 632);
}

#[test]
fn placing_then_breaking_restores_the_block() {
    let mut data = flat_world(&[(0, 0)]);
    let c = ChunkCoord::new(0, 0);
    data.create_instance(&c);
    data.place_block(pos(7, 4, 7), Block::new(BlockType::Dirt));
    let writes = data.place_block(pos(7, 4, 7), Block::empty());
    assert_eq!(data.get_block(pos(7, 4, 7)).tp, BlockType::Empty);
    assert_eq!(writes.len(), 1);
    assert_eq!(data.get_chunk(&c).unwrap().offset_top, 632);
}

#[test]
fn placing_outside_the_loaded_world_does_nothing() {
    let mut data = flat_world(&[(0, 0)]);
    data.create_instance(&ChunkCoord::new(0, 0));
    assert!(data.place_block(pos(-1, 4, 0), Block::new(BlockType::Stone)).is_empty());
    assert!(data.place_block(pos(3, 256, 3), Block::new(BlockType::Stone)).is_empty());
    assert_eq!(data.get_block(pos(-1, 4, 0)).tp, BlockType::Empty);
    assert_eq!(data.get_chunk(&ChunkCoord::new(0, 0)).unwrap().offset_top, 632);
}

#[test]
fn drawing_a_single_block() {
    let mut data = flat_world(&[(0, 0)]);
    let w = data.update_single_block_buffer(pos(2, 1, 2));
    assert_eq!(
        w,
        InstanceWrite { chunk: ChunkCoord::new(0, 0), offset: 0, instance: Instance { position: pos(2, 1, 2), block_type: 2 } }
    );
    assert_eq!(data.get_chunk(&ChunkCoord::new(0, 0)).unwrap().offset_top, 1);
}

#[test]
fn first_empty_height_of_a_column() {
    let data = flat_world(&[(0, 0)]);
    assert_eq!(data.get_first_none_empty_block(0, 0), 5);
    assert_eq!(data.get_first_none_empty_block(40, 40), 1);
    let mut full = RealmData::empty();
    full.insert_chunk(ChunkCoord::new(0, 0), ChunkData::from_blocks(vec![Block::new(BlockType::Stone); 65536]).unwrap());
    assert_eq!(full.get_first_none_empty_block(3, 3), 90);
}

#[test]
fn chunk_loading_steps() {
    let mut data = flat_world(&[(0, 0)]);
    assert_eq!(data.init_chunk_step(&ChunkCoord::new(0, 0), true), InitChunkStep::Loaded);
    assert_eq!(data.init_chunk_step(&ChunkCoord::new(1, 0), true), InitChunkStep::Pending);
    assert_eq!(data.init_chunk_step(&ChunkCoord::new(1, 0), false), InitChunkStep::Load);
    data.unload_chunk(&ChunkCoord::new(0, 0));
    assert!(data.get_chunk(&ChunkCoord::new(0, 0)).is_none());
    assert_eq!(data.init_chunk_step(&ChunkCoord::new(0, 0), false), InitChunkStep::Load);
}

#[test]
fn loaded_chunk_coords_lists_each_chunk_once() {
    let data = flat_world(&[(0, 0), (-2, 3), (5, -1)]);
    let mut coords = data.loaded_chunk_coords();
    coords.sort();
    assert_eq!(coords, vec![ChunkCoord::new(-2, 3), ChunkCoord::new(0, 0), ChunkCoord::new(5, -1)]);
}

#[test]
fn selection_frame_moves() {
    let mut data = RealmData::empty();
    data.update_wf_uniform(pos(1, 2, 3));
    assert_eq!(data.wf_position, pos(1, 2, 3));
}

#[test]
fn which_placements_are_allowed() {
    let mut data = flat_world(&[(0, 0)]);
    let c = ChunkCoord::new(0, 0);
    data.create_instance(&c);
    let stone = Block::new(BlockType::Stone);
    // outside the loaded chunks and the height range: always (nothing happens)
    assert!(data.can_place_block(pos(-1, 4, 0), stone));
    assert!(data.can_place_block(pos(3, 300, 3), Block::empty()));
    // placing into a chunk with room
    assert!(data.can_place_block(pos(5, 4, 5), stone));
    // breaking needs the block to be drawn
    assert!(data.can_place_block(pos(5, 3, 5), Block::empty()));
    assert!(!data.can_place_block(pos(5, 2, 5), Block::empty()));
    assert!(!data.can_place_block(pos(5, 10, 5), Block::empty()));
    // the neighbour above the top layer lies outside the slot array at the
    // last local x, and inside it elsewhere
    data.place_block(pos(15, 255, 3), stone);
    data.place_block(pos(14, 255, 3), stone);
    assert!(!data.can_place_block(pos(15, 255, 3), Block::empty()));
    assert!(data.can_place_block(pos(14, 255, 3), Block::empty()));
}
