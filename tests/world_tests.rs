use brickbyte::{
    build_mesh, scroll_hotbar, sky_light, world_to_local, BlockPos, Chunk, ChunkPos, Face, FixedVec3, MoveKeys, Player, World,
    WorldError, CHUNK_VOLUME,
};

fn flat_heights(h: i32) -> Vec<i32> {
    vec![h; 256]
}

fn idx(x: usize, y: usize, z: usize) -> usize {
    x + z * 16 + y * 256
}

fn air_world() -> World {
    let mut world = World::new();
    world.insert_chunk(ChunkPos::new(0, 0), &flat_heights(-10));
    world
}

fn no_keys() -> MoveKeys {
    MoveKeys { forward: false, back: false, left: false, right: false, jump: false, sprint: false }
}

#[test]
fn world_to_local_splits_positive_coordinates() {
    let (c, l) = world_to_local(BlockPos::new(37, 12, 5));
    assert_eq!(c, ChunkPos::new(2, 0));
    assert_eq!(l, BlockPos::new(5, 12, 5));
}

#[test]
fn world_to_local_splits_negative_coordinates() {
    let (c, l) = world_to_local(BlockPos::new(-1, 7, -17));
    assert_eq!(c, ChunkPos::new(-1, -2));
    assert_eq!(l, BlockPos::new(15, 7, 15));
}

#[test]
fn world_to_local_round_trips() {
    for x in [-33, -17, -16, -15, -1, 0, 1, 15, 16, 31, 100] {
        for z in [-20, -16, -3, 0, 9, 16, 47] {
            let p = BlockPos::new(x, 3, z);
            let (c, l) = world_to_local(p);
            assert_eq!(c.x * 16 + l.x, x);
            assert_eq!(c.z * 16 + l.z, z);
            assert_eq!(l.y, 3);
            assert!(l.x >= 0 && l.x < 16 && l.z >= 0 && l.z < 16);
        }
    }
}

#[test]
fn chunk_reads_outside_bounds_as_air() {
    let mut chunk = Chunk::empty(ChunkPos::new(0, 0));
    chunk.set_block(BlockPos::new(0, 0, 0), 3);
    assert_eq!(chunk.get_block(BlockPos::new(0, 0, 0)), 3);
    assert_eq!(chunk.get_block(BlockPos::new(-1, 0, 0)), 0);
    assert_eq!(chunk.get_block(BlockPos::new(0, 208, 0)), 0);
    assert_eq!(chunk.get_block(BlockPos::new(0, 0, 16)), 0);
    assert_eq!(chunk.get_light(BlockPos::new(0, -1, 0)), 15);
}

#[test]
fn chunk_set_block_clears_and_sets() {
    let mut chunk = Chunk::empty(ChunkPos::new(1, -1));
    chunk.set_block(BlockPos::new(4, 100, 9), 2);
    assert_eq!(chunk.get_block(BlockPos::new(4, 100, 9)), 2);
    chunk.set_block(BlockPos::new(4, 100, 9), 0);
    assert_eq!(chunk.get_block(BlockPos::new(4, 100, 9)), 0);
    assert_eq!(chunk.position(), ChunkPos::new(1, -1));
}

#[test]
fn terrain_layers_follow_height_and_depth() {
    let mut chunk = Chunk::empty(ChunkPos::new(0, 0));
    let heights = flat_heights(60);
    let depths = vec![4u8; 256];
    chunk.fill_terrain(&heights, &depths);
    assert_eq!(chunk.get_block(BlockPos::new(3, 0, 3)), 3);
    assert_eq!(chunk.get_block(BlockPos::new(3, 55, 3)), 3);
    assert_eq!(chunk.get_block(BlockPos::new(3, 56, 3)), 2);
    assert_eq!(chunk.get_block(BlockPos::new(3, 57, 3)), 2);
    assert_eq!(chunk.get_block(BlockPos::new(3, 59, 3)), 2);
    assert_eq!(chunk.get_block(BlockPos::new(3, 60, 3)), 1);
    assert_eq!(chunk.get_block(BlockPos::new(3, 61, 3)), 0);
}

#[test]
fn generated_chunk_has_grass_on_top_and_dirt_three_to_five_deep() {
    let chunk = Chunk::new(ChunkPos::new(0, 0), &flat_heights(80));
    for x in 0..16 {
        for z in 0..16 {
            assert_eq!(chunk.get_block(BlockPos::new(x, 80, z)), 1);
            assert_eq!(chunk.get_block(BlockPos::new(x, 81, z)), 0);
            assert_eq!(chunk.get_block(BlockPos::new(x, 78, z)), 2);
            assert_eq!(chunk.get_block(BlockPos::new(x, 77, z)), 2);
            let mid = chunk.get_block(BlockPos::new(x, 75, z));
            assert!(mid == 2 || mid == 3);
            assert_eq!(chunk.get_block(BlockPos::new(x, 74, z)), 3);
            assert_eq!(chunk.get_light(BlockPos::new(x, 81, z)), 15);
            assert_eq!(chunk.get_light(BlockPos::new(x, 80, z)), 0);
        }
    }
}

#[test]
fn open_chunk_is_fully_lit() {
    let blocks = vec![0u8; CHUNK_VOLUME];
    let light = sky_light(&blocks);
    assert!(light.iter().all(|&l| l == 15));
}

#[test]
fn light_falls_off_one_level_per_step_under_a_roof() {
    // A solid roof at y = 100 over the whole chunk but for one hole at (0, 100, 0).
    let mut blocks = vec![0u8; CHUNK_VOLUME];
    for x in 0..16 {
        for z in 0..16 {
            blocks[idx(x, 100, z)] = 3;
        }
    }
    blocks[idx(0, 100, 0)] = 0;
    let light = sky_light(&blocks);
    assert_eq!(light[idx(0, 100, 0)], 15);
    assert_eq!(light[idx(0, 50, 0)], 15);
    assert_eq!(light[idx(1, 99, 0)], 14);
    assert_eq!(light[idx(3, 99, 4)], 8);
    assert_eq!(light[idx(15, 99, 15)], 0);
    assert_eq!(light[idx(5, 100, 5)], 0);
    assert_eq!(light[idx(7, 101, 7)], 15);
    for &l in light.iter() {
        assert!(l <= 15);
    }
}

#[test]
fn enclosed_air_stays_dark() {
    let mut blocks = vec![0u8; CHUNK_VOLUME];
    for x in 0..16 {
        for z in 0..16 {
            for y in 0..120 {
                blocks[idx(x, y, z)] = 3;
            }
        }
    }
    blocks[idx(8, 50, 8)] = 0;
    let light = sky_light(&blocks);
    assert_eq!(light[idx(8, 50, 8)], 0);
    assert_eq!(light[idx(8, 120, 8)], 15);
}

#[test]
fn lone_block_mesh_has_six_faces() {
    let mut blocks = vec![0u8; CHUNK_VOLUME];
    blocks[idx(5, 60, 7)] = 2;
    let light = sky_light(&blocks);
    let mesh = build_mesh(&blocks, &light);
    assert_eq!(mesh.faces.len(), 6);
    assert_eq!(mesh.vertices.len(), 24);
    assert_eq!(mesh.indices.len(), 36);
    assert_eq!(&mesh.indices[0..6], &[0, 1, 2, 2, 3, 0]);
    assert_eq!(&mesh.indices[6..12], &[4, 5, 6, 6, 7, 4]);
    let order: Vec<Face> = mesh.faces.iter().map(|f| f.face).collect();
    assert_eq!(order, vec![Face::Front, Face::Back, Face::Top, Face::Bottom, Face::Left, Face::Right]);
    for f in mesh.faces.iter() {
        assert_eq!(f.occlusion, [0, 0, 0, 0]);
        assert_eq!(f.block, BlockPos::new(5, 60, 7));
    }
}

#[test]
fn shared_face_between_two_blocks_is_not_emitted() {
    let mut blocks = vec![0u8; CHUNK_VOLUME];
    blocks[idx(5, 60, 7)] = 2;
    blocks[idx(6, 60, 7)] = 2;
    let light = sky_light(&blocks);
    let mesh = build_mesh(&blocks, &light);
    assert_eq!(mesh.faces.len(), 10);
    assert!(!mesh.faces.iter().any(|f| f.block == BlockPos::new(5, 60, 7) && f.face == Face::Right));
    assert!(!mesh.faces.iter().any(|f| f.block == BlockPos::new(6, 60, 7) && f.face == Face::Left));
}

#[test]
fn top_face_vertices_texture_and_shade() {
    let mut blocks = vec![0u8; CHUNK_VOLUME];
    blocks[idx(2, 10, 3)] = 18;
    let light = sky_light(&blocks);
    let mesh = build_mesh(&blocks, &light);
    let top = mesh.faces.iter().position(|f| f.face == Face::Top).unwrap();
    let v = &mesh.vertices[4 * top..4 * top + 4];
    assert_eq!((v[0].x, v[0].y, v[0].z), (2, 11, 3));
    assert_eq!((v[1].x, v[1].y, v[1].z), (3, 11, 3));
    assert_eq!((v[2].x, v[2].y, v[2].z), (3, 11, 4));
    assert_eq!((v[3].x, v[3].y, v[3].z), (2, 11, 4));
    // Tile 17 sits in row 1, column 1 of the atlas.
    assert_eq!((v[0].u, v[0].v), (1, 1));
    assert_eq!((v[2].u, v[2].v), (2, 2));
    assert_eq!(v[0].shade, 10);
    assert_eq!(v[0].light, 15);
    let bottom = mesh.faces.iter().position(|f| f.face == Face::Bottom).unwrap();
    assert_eq!(mesh.vertices[4 * bottom].shade, 4);
    let front = mesh.faces.iter().position(|f| f.face == Face::Front).unwrap();
    assert_eq!(mesh.vertices[4 * front].shade, 8);
}

#[test]
fn corner_occlusion_counts_solid_neighbours() {
    let mut blocks = vec![0u8; CHUNK_VOLUME];
    blocks[idx(5, 10, 5)] = 1;
    // Both edge cells beside the top face's first corner are solid.
    blocks[idx(4, 11, 5)] = 1;
    blocks[idx(5, 11, 4)] = 1;
    let light = sky_light(&blocks);
    let mesh = build_mesh(&blocks, &light);
    let top = mesh.faces.iter().find(|f| f.block == BlockPos::new(5, 10, 5) && f.face == Face::Top).unwrap();
    assert_eq!(top.occlusion, [3, 1, 0, 1]);
}

#[test]
fn missing_chunk_reads_as_air() {
    let world = air_world();
    assert_eq!(world.get_block(BlockPos::new(100, 5, 100)), 0);
    assert_eq!(world.get_block(BlockPos::new(-1, 5, 0)), 0);
    assert_eq!(World::new().get_block(BlockPos::new(0, 0, 0)), 0);
}

#[test]
fn set_block_reports_missing_chunk_and_out_of_range() {
    let mut world = air_world();
    assert_eq!(world.set_block(BlockPos::new(-5, 10, 3), 1), Err(WorldError::NoSuchChunk));
    assert_eq!(world.set_block(BlockPos::new(-5, 300, 3), 1), Err(WorldError::NoSuchChunk));
    assert_eq!(world.set_block(BlockPos::new(3, 208, 3), 1), Err(WorldError::OutOfRange));
    assert_eq!(world.set_block(BlockPos::new(3, -1, 3), 1), Err(WorldError::OutOfRange));
    assert_eq!(world.set_block(BlockPos::new(3, 10, 3), 1), Ok(()));
}

#[test]
fn clearing_a_block_reads_air_and_leaves_no_faces() {
    let mut world = World::new();
    world.insert_chunk(ChunkPos::new(-1, 0), &flat_heights(40));
    let p = BlockPos::new(-3, 40, 5);
    assert_eq!(world.get_block(p), 1);
    assert_eq!(world.set_block(p, 0), Ok(()));
    assert_eq!(world.get_block(p), 0);
    assert_eq!(world.get_block(BlockPos::new(-3, 39, 5)), 2);
}

#[test]
fn chunk_mesh_after_clearing_has_no_face_there() {
    let mut chunk = Chunk::new(ChunkPos::new(0, 0), &flat_heights(40));
    chunk.set_block(BlockPos::new(13, 40, 5), 0);
    chunk.calculate_lighting();
    chunk.reload_chunk();
    let mesh = chunk.mesh().unwrap();
    assert!(!mesh.faces.iter().any(|f| f.block == BlockPos::new(13, 40, 5)));
    assert!(mesh.faces.iter().any(|f| f.block == BlockPos::new(13, 39, 5) && f.face == Face::Top));
}

#[test]
fn raycast_hits_block_ahead_with_placement_cell_before_it() {
    let mut world = air_world();
    assert_eq!(world.set_block(BlockPos::new(0, 0, 0), 1), Ok(()));
    let hit = world
        .raycast_block(FixedVec3::new(500, 500, -5000), FixedVec3::new(0, 0, 1000), 10_000)
        .unwrap();
    assert_eq!(hit.block_pos, BlockPos::new(0, 0, 0));
    assert_eq!(hit.prev_block_pos, BlockPos::new(0, 0, -1));
}

#[test]
fn raycast_misses_beyond_reach() {
    let mut world = air_world();
    assert_eq!(world.set_block(BlockPos::new(0, 0, 0), 1), Ok(()));
    let hit = world.raycast_block(FixedVec3::new(500, 500, -5000), FixedVec3::new(0, 0, 1000), 4_000);
    assert!(hit.is_none());
}

#[test]
fn raycast_with_zero_direction_terminates() {
    let world = air_world();
    assert!(world.raycast_block(FixedVec3::new(500, 500, 500), FixedVec3::new(0, 0, 0), 10_000).is_none());
}

#[test]
fn raycast_downward_hits_ground_from_above() {
    let mut world = World::new();
    world.insert_chunk(ChunkPos::new(0, 0), &flat_heights(50));
    let hit = world
        .raycast_block(FixedVec3::new(8500, 55500, 8500), FixedVec3::new(0, -1000, 0), 10_000)
        .unwrap();
    assert_eq!(hit.block_pos, BlockPos::new(8, 50, 8));
    assert_eq!(hit.prev_block_pos, BlockPos::new(8, 51, 8));
}

#[test]
fn landing_at_twenty_blocks_per_second_costs_three_health() {
    let mut world = World::new();
    world.insert_chunk(ChunkPos::new(0, 0), &flat_heights(50));
    let v: i64 = -20_000;
    let mut player = Player::airborne(FixedVec3::new(2500, 50_900, 2500), v, 8);
    player.update_pos(16, no_keys(), FixedVec3::new(0, 0, -1000), FixedVec3::new(1000, 0, 0), &world);
    let expected = ((-(v as f64) / 1000.0) * 0.4 - 5.0).floor() as u8;
    assert_eq!(expected, 3);
    assert_eq!(player.get_health(), 8 - expected);
    assert_eq!(player.get_vertical_velocity(), 0);
}

#[test]
fn damage_stops_at_zero() {
    let mut player = Player::new();
    player.damage(3);
    assert_eq!(player.get_health(), 5);
    player.damage(200);
    assert_eq!(player.get_health(), 0);
}

#[test]
fn walking_into_a_wall_keeps_that_axis() {
    let mut world = World::new();
    world.insert_chunk(ChunkPos::new(0, 0), &flat_heights(50));
    assert_eq!(world.set_block(BlockPos::new(3, 51, 2), 1), Ok(()));
    assert_eq!(world.set_block(BlockPos::new(3, 52, 2), 1), Ok(()));
    let mut player = Player::airborne(FixedVec3::new(2600, 51_000, 2500), 0, 8);
    let keys = MoveKeys { forward: true, ..no_keys() };
    player.update_pos(16, keys, FixedVec3::new(1000, 0, 0), FixedVec3::new(0, 0, 1000), &world);
    assert_eq!(player.get_pos().x, 2600);
}

#[test]
fn walking_in_the_open_moves_by_speed_times_time() {
    let mut world = World::new();
    world.insert_chunk(ChunkPos::new(0, 0), &flat_heights(50));
    let mut player = Player::airborne(FixedVec3::new(2600, 51_000, 2500), 0, 8);
    let keys = MoveKeys { forward: true, ..no_keys() };
    player.update_pos(100, keys, FixedVec3::new(1000, 0, 0), FixedVec3::new(0, 0, 1000), &world);
    assert_eq!(player.get_pos().x, 3000);
    let keys = MoveKeys { forward: true, sprint: true, ..no_keys() };
    player.update_pos(100, keys, FixedVec3::new(1000, 0, 0), FixedVec3::new(0, 0, 1000), &world);
    assert_eq!(player.get_pos().x, 3600);
}

#[test]
fn falling_player_accelerates_and_long_ticks_are_skipped() {
    let world = air_world();
    let mut player = Player::airborne(FixedVec3::new(2500, 100_000, 2500), 0, 8);
    player.update_pos(100, no_keys(), FixedVec3::new(0, 0, -1000), FixedVec3::new(1000, 0, 0), &world);
    assert_eq!(player.get_vertical_velocity(), -2300);
    assert_eq!(player.get_pos().y, 100_000 - 230);
    player.update_pos(300, no_keys(), FixedVec3::new(0, 0, -1000), FixedVec3::new(1000, 0, 0), &world);
    assert_eq!(player.get_vertical_velocity(), -2300);
    assert_eq!(player.get_pos().y, 100_000 - 230);
}

#[test]
fn jumping_from_the_ground_gives_upward_speed() {
    let mut world = World::new();
    world.insert_chunk(ChunkPos::new(0, 0), &flat_heights(50));
    let mut player = Player::airborne(FixedVec3::new(2500, 50_999, 2500), 0, 8);
    let keys = MoveKeys { jump: true, ..no_keys() };
    player.update_pos(10, keys, FixedVec3::new(0, 0, -1000), FixedVec3::new(1000, 0, 0), &world);
    assert_eq!(player.get_vertical_velocity(), 8000);
    assert_eq!(player.get_pos().y, 50_999 + 80);
    assert_eq!(player.get_head_pos().y, 50_999 + 80 + 1800);
}

#[test]
fn reload_world_builds_every_mesh() {
    let mut world = World::new();
    world.insert_chunk(ChunkPos::new(0, 0), &flat_heights(30));
    world.insert_chunk(ChunkPos::new(1, 0), &flat_heights(31));
    world.reload_world();
    assert_eq!(world.get_block(BlockPos::new(20, 31, 3)), 1);
    assert_eq!(world.get_block(BlockPos::new(5, 31, 3)), 0);
}

#[test]
fn hotbar_scrolling_wraps_around() {
    assert_eq!(scroll_hotbar(0, -1), 8);
    assert_eq!(scroll_hotbar(8, 1), 0);
    assert_eq!(scroll_hotbar(3, 1), 4);
    assert_eq!(scroll_hotbar(3, -1), 2);
    assert_eq!(scroll_hotbar(5, 0), 5);
}

#[test]
fn blocks_cannot_be_placed_in_the_players_cells() {
    let player = Player::airborne(FixedVec3::new(2500, 50_200, 2500), 0, 8);
    assert!(!player.can_place_at(BlockPos::new(2, 51, 2)));
    assert!(!player.can_place_at(BlockPos::new(2, 52, 2)));
    assert!(player.can_place_at(BlockPos::new(2, 50, 2)));
    assert!(player.can_place_at(BlockPos::new(3, 51, 2)));
}

#[test]
fn raycast_tie_between_axes_steps_along_x_first() {
    let mut world = air_world();
    assert_eq!(world.set_block(BlockPos::new(1, 0, 0), 1), Ok(()));
    assert_eq!(world.set_block(BlockPos::new(0, 1, 0), 1), Ok(()));
    let hit = world
        .raycast_block(FixedVec3::new(500, 500, 500), FixedVec3::new(707, 707, 0), 10_000)
        .unwrap();
    assert_eq!(hit.block_pos, BlockPos::new(1, 0, 0));
    assert_eq!(hit.prev_block_pos, BlockPos::new(0, 0, 0));
}

#[test]
fn new_chunk_has_no_mesh_until_reloaded() {
    let mut chunk = Chunk::new(ChunkPos::new(0, 0), &flat_heights(40));
    assert!(chunk.mesh().is_none());
    chunk.reload_chunk();
    assert!(chunk.mesh().is_some());
}
