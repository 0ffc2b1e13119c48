use std::collections::HashMap;
use std::sync::Arc;

use voxel_world::blocks::{create_block_default, Blocks};
use voxel_world::chunk::{xz_to_index, Chunk, TerrainSample};
use voxel_world::lighting::{flood_lights, flood_lights_from_broken, flood_lights_from_placed};
use voxel_world::structure_loader::StructureData;
use voxel_world::vector::{Vector2, Vector3};
use voxel_world::world::ChunkMap;

fn no_tree() -> StructureData {
    StructureData { blocks: vec![], widthx: 0, widthz: 0, height: 0, schematic: vec![] }
}

fn flat_terrain(height: i32) -> TerrainSample {
    TerrainSample { heights: vec![height; 256], caves: vec![false; 65536], trees: vec![false; 256] }
}

fn flat_world(height: i32, radius: i32) -> ChunkMap {
    let mut chunks = ChunkMap::new();
    let tree = no_tree();
    for x in -radius..=radius {
        for z in -radius..=radius {
            let chunk = Chunk::new(Vector2::new(x, z), &flat_terrain(height), &tree, &mut HashMap::new());
            chunks.insert(Arc::new(chunk));
        }
    }
    chunks
}

fn lit_flat_world(height: i32, radius: i32) -> ChunkMap {
    let mut chunks = flat_world(height, radius);
    for x in -radius..=radius {
        for z in -radius..=radius {
            flood_lights(&mut chunks, xz_to_index(x, z));
        }
    }
    chunks
}

#[test]
fn flat_chunk_is_grass_on_dirt_on_stone() {
    let chunks = flat_world(10, 0);
    assert_eq!(chunks.get_block_at_absolute(8, 11, 8).unwrap().get_block(), Blocks::AIR);
    assert_eq!(chunks.get_block_at_absolute(8, 10, 8).unwrap().get_block(), Blocks::GRASS);
    assert_eq!(chunks.get_block_at_absolute(8, 9, 8).unwrap().get_block(), Blocks::DIRT);
    assert_eq!(chunks.get_block_at_absolute(8, 7, 8).unwrap().get_block(), Blocks::DIRT);
    assert_eq!(chunks.get_block_at_absolute(8, 6, 8).unwrap().get_block(), Blocks::STONE);
    assert_eq!(chunks.get_block_at_absolute(8, 0, 8).unwrap().get_block(), Blocks::STONE);
}

#[test]
fn lookups_outside_the_world_find_nothing() {
    let chunks = flat_world(10, 0);
    assert!(chunks.get_block_at_absolute(8, -1, 8).is_none());
    assert!(chunks.get_block_at_absolute(8, 256, 8).is_none());
    assert!(chunks.get_block_at_absolute(16, 10, 8).is_none());
    assert!(chunks.get_block_at_absolute(-1, 10, 8).is_none());
    assert_eq!(chunks.get_sunlight_intensity_at(16, 10, 8), 0);
    assert_eq!(chunks.get_sunlight_intensity_at(8, 300, 8), 0);
}

#[test]
fn blocks_know_their_position() {
    let chunks = flat_world(10, 1);
    let b = chunks.get_block_at_absolute(-3, 40, 20).unwrap();
    assert_eq!(b.get_absolute_position(), Vector3::new(-3, 40, 20));
    assert_eq!(b.get_relative_position().x, 13);
    assert_eq!(b.get_relative_position().y, 8);
    assert_eq!(b.get_relative_position().z, 4);
}

#[test]
fn initial_flood_lights_the_sky_and_not_the_ground() {
    let chunks = lit_flat_world(10, 0);
    assert_eq!(chunks.get_sunlight_intensity_at(8, 11, 8), 15);
    assert_eq!(chunks.get_sunlight_intensity_at(8, 9, 8), 0);
    assert_eq!(chunks.get_sunlight_intensity_at(8, 10, 8), 0);
    assert_eq!(chunks.get_sunlight_intensity_at(8, 255, 8), 15);
}

#[test]
fn initial_flood_lights_every_sky_shaft() {
    let chunks = lit_flat_world(10, 0);
    for x in 0..16 {
        for z in 0..16 {
            for y in 11..256u32 {
                assert_eq!(chunks.get_sunlight_intensity_at(x, y, z), 15);
            }
            for y in 0..=10u32 {
                assert_eq!(chunks.get_sunlight_intensity_at(x, y, z), 0);
            }
        }
    }
}

#[test]
fn initial_flood_of_a_missing_chunk_changes_nothing() {
    let mut chunks = flat_world(10, 0);
    flood_lights(&mut chunks, xz_to_index(5, 5));
    assert_eq!(chunks.get_sunlight_intensity_at(8, 11, 8), 0);
    assert_eq!(chunks.len(), 1);
}

#[test]
fn light_creeps_under_an_overhang() {
    let mut chunks = flat_world(10, 0);
    // a roof of stone over the column (8, _, 8), one block above the ground
    for (x, z) in [(8, 8), (9, 8), (10, 8)] {
        assert!(chunks.set_block(create_block_default(Blocks::STONE, Vector3::new(x, 13, z))));
    }
    flood_lights(&mut chunks, xz_to_index(0, 0));
    // open sky next to the roof
    assert_eq!(chunks.get_sunlight_intensity_at(7, 11, 8), 15);
    assert_eq!(chunks.get_sunlight_intensity_at(7, 12, 8), 15);
    // under the roof the light fades by one a step
    assert_eq!(chunks.get_sunlight_intensity_at(8, 11, 8), 14);
    assert_eq!(chunks.get_sunlight_intensity_at(9, 11, 8), 14);
    // a block that an earlier wave lit to 13 is not raised by a neighbour at 14
    assert_eq!(chunks.get_sunlight_intensity_at(9, 12, 8), 13);
    // the roof itself stays dark
    assert_eq!(chunks.get_sunlight_intensity_at(9, 13, 8), 0);
}

#[test]
fn placing_a_block_shades_the_column_beneath() {
    let mut chunks = lit_flat_world(10, 1);
    let pos = Vector3::new(8, 20, 8);
    let before = chunks.get_sunlight_intensity_at(8, 20, 8);
    assert_eq!(before, 15);
    assert!(chunks.set_block(create_block_default(Blocks::STONE, pos)));
    let touched = flood_lights_from_placed(&mut chunks, pos, before);
    assert_eq!(chunks.get_sunlight_intensity_at(8, 20, 8), 0);
    let beneath = chunks.get_sunlight_intensity_at(8, 19, 8);
    assert!(beneath <= 14);
    assert_eq!(beneath, 14);
    assert_eq!(chunks.get_sunlight_intensity_at(8, 11, 8), 14);
    // above the block and far away nothing changes
    assert_eq!(chunks.get_sunlight_intensity_at(8, 21, 8), 15);
    assert_eq!(chunks.get_sunlight_intensity_at(-10, 11, -10), 15);
    assert_eq!(chunks.get_sunlight_intensity_at(15, 200, 15), 15);
    assert_eq!(chunks.get_sunlight_intensity_at(8, 9, 8), 0);
    // the slice of the block comes first, each slice once
    assert_eq!(touched[0], Vector3::new(0, 1, 0));
    assert!(touched.contains(&Vector3::new(0, 0, 0)));
    for (i, a) in touched.iter().enumerate() {
        for b in touched.iter().skip(i + 1) {
            assert_ne!(a, b);
        }
    }
}

#[test]
fn breaking_a_block_lets_the_light_in() {
    let mut chunks = lit_flat_world(10, 0);
    // dig out the grass at (8, 10, 8)
    assert!(chunks.set_block(create_block_default(Blocks::AIR, Vector3::new(8, 10, 8))));
    let touched = flood_lights_from_broken(&mut chunks, Vector3::new(8, 10, 8));
    // directly beneath full sunlight: full sunlight
    assert_eq!(chunks.get_sunlight_intensity_at(8, 10, 8), 15);
    assert_eq!(touched, vec![Vector3::new(0, 0, 0)]);
    // dig sideways: one less than the brightest neighbour
    assert!(chunks.set_block(create_block_default(Blocks::AIR, Vector3::new(9, 10, 8))));
    flood_lights_from_broken(&mut chunks, Vector3::new(9, 10, 8));
    assert_eq!(chunks.get_sunlight_intensity_at(9, 10, 8), 15);
}

#[test]
fn breaking_a_block_in_the_dark_stays_dark() {
    let mut chunks = lit_flat_world(10, 0);
    assert!(chunks.set_block(create_block_default(Blocks::AIR, Vector3::new(8, 3, 8))));
    flood_lights_from_broken(&mut chunks, Vector3::new(8, 3, 8));
    assert_eq!(chunks.get_sunlight_intensity_at(8, 3, 8), 0);
}

#[test]
fn a_tunnel_dims_by_one_a_step() {
    let mut chunks = lit_flat_world(10, 0);
    // a shaft down from the surface, then a tunnel along x under the ground
    for y in [10, 9, 8] {
        assert!(chunks.set_block(create_block_default(Blocks::AIR, Vector3::new(4, y, 8))));
        flood_lights_from_broken(&mut chunks, Vector3::new(4, y, 8));
    }
    assert_eq!(chunks.get_sunlight_intensity_at(4, 8, 8), 15);
    for x in 5..10 {
        assert!(chunks.set_block(create_block_default(Blocks::AIR, Vector3::new(x, 8, 8))));
        flood_lights_from_broken(&mut chunks, Vector3::new(x, 8, 8));
    }
    assert_eq!(chunks.get_sunlight_intensity_at(5, 8, 8), 14);
    assert_eq!(chunks.get_sunlight_intensity_at(6, 8, 8), 13);
    assert_eq!(chunks.get_sunlight_intensity_at(9, 8, 8), 10);
}

#[test]
fn a_snapshot_is_not_touched_by_later_changes() {
    let mut chunks = lit_flat_world(10, 0);
    let snapshot = chunks.clone();
    assert!(chunks.set_block(create_block_default(Blocks::STONE, Vector3::new(8, 20, 8))));
    chunks.set_sunlight_intensity_at(1, 11, 1, 3);
    assert_eq!(snapshot.get_block_at_absolute(8, 20, 8).unwrap().get_block(), Blocks::AIR);
    assert_eq!(snapshot.get_sunlight_intensity_at(1, 11, 1), 15);
    assert_eq!(chunks.get_block_at_absolute(8, 20, 8).unwrap().get_block(), Blocks::STONE);
    assert_eq!(chunks.get_sunlight_intensity_at(1, 11, 1), 3);
}
