use amethyst_net::arrays::{array_copy, extract_vector};
use amethyst_net::chunk::{ChunkColumn, ChunkSection};
use amethyst_net::light_grid::PosValue;
use amethyst_net::world::{generate, Block, ChunkPos, LevelType, Material, World};

#[test]
fn block_encoding() {
    let torch = Block::from_material_and_metadata(Material { id: 50 }, 5);
    assert_eq!(torch.get_encoded(), 50 * 16 + 5);
    let back = Block::from_encoded(torch.get_encoded());
    assert_eq!(back, torch);
    assert_eq!(Block::new(), Block::from_material(Material { id: 0 }));
    assert_eq!(Block::from_encoded(0xffff).material.id, 0x0fff);
    assert_eq!(Block::from_encoded(0xffff).metadata, 15);
}

#[test]
fn chunk_of_block_rounds_down() {
    assert_eq!(ChunkPos::from_block_coords(0, 15), ChunkPos { x: 0, z: 0 });
    assert_eq!(ChunkPos::from_block_coords(16, -1), ChunkPos { x: 1, z: -1 });
    assert_eq!(ChunkPos::from_block_coords(-16, -17), ChunkPos { x: -1, z: -2 });
    assert_eq!(
        ChunkPos::from_block_coords(i32::MIN, i32::MAX),
        ChunkPos { x: i32::MIN / 16, z: i32::MAX / 16 }
    );
}

#[test]
fn level_type_names() {
    assert_eq!(LevelType::Default.to_str(), "default");
    assert_eq!(LevelType::Flat.to_str(), "flat");
    assert_eq!(LevelType::LargeBiomes.to_str(), "largeBiomes");
    assert_eq!(LevelType::Amplified.to_str(), "amplified");
    assert_eq!(LevelType::Default11.to_str(), "default_1_1");
}

#[test]
fn chunk_column_blocks_and_mask() {
    let mut column = ChunkColumn::new(ChunkPos { x: 3, z: 4 });
    assert_eq!(*column.get_chunk_pos(), ChunkPos { x: 3, z: 4 });
    assert_eq!(column.bitmask(), (0, 0));
    let stone = Block::from_material(Material { id: 1 });
    column.set_block(stone, 70, 2, 3);
    assert_eq!(column.get_block(70, 2, 3), stone);
    assert_eq!(column.get_block(70, 2, 4), Block::new());
    assert_eq!(column.get_block(200, 2, 3), Block::new());
    column.allocate_section(0);
    assert_eq!(column.bitmask(), (0b10001, 2));
    column.allocate_section(15);
    assert_eq!(column.bitmask(), (0b1000_0000_0001_0001, 3));
    let section = ChunkSection::new();
    assert_eq!(section.blocks.len(), 4096);
    assert_eq!(section.block_light.len(), 2048);
}

#[test]
fn world_blocks_round_trip() {
    let mut world = World::new("world".to_string(), 1, LevelType::Flat);
    let glass = Block::from_material_and_metadata(Material { id: 20 }, 3);
    world.set_block(glass, -1, 64, -33);
    assert_eq!(world.get_block(-1, 64, -33), glass);
    assert_eq!(world.get_block(-2, 64, -33), Block::new());
    assert_eq!(world.get_block(1000, 64, 1000), Block::new());
    assert!(world.get_chunk(ChunkPos { x: -1, z: -3 }).is_some());
    assert!(world.get_chunk(ChunkPos { x: 0, z: 0 }).is_none());
    let index = world.allocate_chunk(ChunkPos { x: 0, z: 0 });
    assert_eq!(world.chunks[index].chunk_pos, ChunkPos { x: 0, z: 0 });
    assert_eq!(world.allocate_chunk(ChunkPos { x: -1, z: -3 }), 0);
}

#[test]
fn world_light_levels() {
    let mut world = World::new("world".to_string(), 0, LevelType::Default);
    assert!(world.set_light(7, 3, 10, 4));
    assert!(!world.set_light(5, 3, 10, 4));
    assert!(world.set_light(7, 3, 10, 4));
    assert!(world.set_light(9, 3, 10, 4));
    world.set_block_light(2, 3, 10, 4);
    let section = world.get_chunk(ChunkPos { x: 0, z: 0 }).unwrap().sections[0].as_ref().unwrap();
    // x = 3 is odd: the high half of byte 10 * 128 + 4 * 8 + 1
    assert_eq!(section.block_light[10 * 128 + 4 * 8 + 1], 2 << 4);
    world.set_block_light(6, 2, 10, 4);
    let section = world.get_chunk(ChunkPos { x: 0, z: 0 }).unwrap().sections[0].as_ref().unwrap();
    assert_eq!(section.block_light[10 * 128 + 4 * 8 + 1], (2 << 4) | 6);
}

#[test]
fn flood_fill_spreads_and_fades() {
    let mut world = World::new("world".to_string(), 0, LevelType::Default);
    world.flood_fill_light(3, 0, 0, 0);
    let section = world.get_chunk(ChunkPos { x: 0, z: 0 }).unwrap().sections[0].as_ref().unwrap();
    assert_eq!(section.block_light[0] & 0x0f, 3);
    assert_eq!(section.block_light[0] >> 4, 2);
    assert_eq!(section.block_light[128] & 0x0f, 2);
    assert_eq!(section.block_light[256] & 0x0f, 1);
    assert!(world.get_chunk(ChunkPos { x: -1, z: 0 }).is_some());
}

#[test]
fn generate_lays_platform_and_torch() {
    let mut world = World::new("world".to_string(), 0, LevelType::Flat);
    generate(&mut world);
    assert_eq!(world.get_block(0, 50, 0), Block::from_material_and_metadata(Material { id: 50 }, 5));
    assert_eq!(world.get_block(-15, 49, 14), Block::from_material(Material { id: 2 }));
    assert_eq!(world.get_block(15, 49, 0), Block::new());
}

#[test]
fn array_helpers() {
    assert_eq!(extract_vector(&[1, 2, 3, 4, 5], 1, 4), vec![2, 3, 4]);
    assert_eq!(extract_vector(&[1, 2], 2, 2), Vec::<u8>::new());
    let mut dest = [0u8; 5];
    array_copy(vec![7, 8], &mut dest);
    assert_eq!(dest, [7, 8, 0, 0, 0]);
}

#[test]
fn light_grid_points() {
    let mut grid = [[0i8; 16]; 16];
    let source = PosValue::new(3, 4, 9);
    source.set(&mut grid);
    assert_eq!(grid[3][4], 9);
    source.pos.set(&mut grid, -1);
    assert_eq!(grid[3][4], -1);
    assert_eq!(grid[4][3], 0);
}

#[test]
fn equal_light_is_rewritten_and_frames_hold() {
    let mut world = World::new("world".to_string(), 0, LevelType::Default);
    let stone = Block::from_material(Material { id: 1 });
    world.set_block(stone, 2, 10, 4);
    world.set_block_light(5, 2, 10, 4);
    assert!(world.set_light(5, 2, 10, 4));
    assert!(world.set_light(6, 3, 10, 4));
    let section = world.get_chunk(ChunkPos { x: 0, z: 0 }).unwrap().sections[0].as_ref().unwrap();
    assert_eq!(section.block_light[10 * 128 + 4 * 8 + 1], (6 << 4) | 5);
    assert_eq!(world.get_block(2, 10, 4), stone);
    assert!(section.sky_light.iter().all(|b| *b == 0));
}

#[test]
fn chunk_data_layout() {
    let mut column = ChunkColumn::new(ChunkPos { x: 2, z: -3 });
    column.set_block(Block::from_material_and_metadata(Material { id: 1 }, 2), 17, 0, 1);
    let data = column.write_chunk_data();
    assert_eq!((data.x, data.z, data.ground_up_continuous, data.bitmask), (2, -3, true, 0b10));
    assert_eq!(data.data.len(), 8192 + 2048 + 2048 + 256);
    // block (y 1, z 0, x 1) of section 1: index 257, little-endian 0x0012
    assert_eq!(data.data[2 * 257], 0x12);
    assert_eq!(data.data[2 * 257 + 1], 0x00);
    let mut world = World::new("w".to_string(), 0, LevelType::Flat);
    world.set_block(Block::from_material(Material { id: 300 }), 0, 0, 0);
    world.set_block(Block::from_material(Material { id: 1 }), 16, 0, 0);
    let bulk = world.get_map_bulk_packet(ChunkPos { x: 0, z: 0 }, 4);
    assert!(bulk.sky_light);
    assert_eq!(bulk.chunks.len(), 2);
    assert_eq!(bulk.chunks[0].pos, ChunkPos { x: 0, z: 0 });
    assert_eq!(bulk.chunks[1].bitmask, 1);
    assert_eq!(bulk.data.len(), 2 * (8192 + 4096 + 256));
    assert_eq!(bulk.data[0], (300u16 << 4) as u8);
    assert_eq!(bulk.data[1], ((300u16 << 4) >> 8) as u8);
}
