use std::collections::HashMap;

use voxel_world::blocks::Blocks;
use voxel_world::chunk::{classify_terrain, xz_to_index, Chunk, ChunkState, TerrainSample};
use voxel_world::structure_loader::{get_blocks_for_structure_at_point, StructureData};
use voxel_world::texture_loader::{assign_texture_indices, TextureIndices, TextureType};
use voxel_world::vector::{Vector2, Vector3};

fn no_tree() -> StructureData {
    StructureData { blocks: vec![], widthx: 0, widthz: 0, height: 0, schematic: vec![] }
}

/// A trunk of two logs with a cross of leaves on top, three wide.
fn small_tree() -> StructureData {
    StructureData {
        blocks: vec![Blocks::AIR, Blocks::LOG, Blocks::LEAF],
        widthx: 3,
        widthz: 3,
        height: 3,
        schematic: vec![
            vec![0, 2, 0, 2, 2, 2, 0, 2, 0],
            vec![0, 0, 0, 0, 1, 0, 0, 0, 0],
            vec![0, 0, 0, 0, 1, 0, 0, 0, 0],
        ],
    }
}

#[test]
fn terrain_kinds_by_depth() {
    assert_eq!(classify_terrain(10, 10, false), Blocks::GRASS);
    assert_eq!(classify_terrain(9, 10, false), Blocks::DIRT);
    assert_eq!(classify_terrain(7, 10, false), Blocks::DIRT);
    assert_eq!(classify_terrain(6, 10, false), Blocks::STONE);
    assert_eq!(classify_terrain(11, 10, false), Blocks::AIR);
    assert_eq!(classify_terrain(5, 10, true), Blocks::AIR);
    assert_eq!(classify_terrain(10, 10, true), Blocks::AIR);
    // high up the surface is bare stone, and so is what lies right under it
    assert_eq!(classify_terrain(159, 159, false), Blocks::GRASS);
    assert_eq!(classify_terrain(160, 160, false), Blocks::STONE);
    assert_eq!(classify_terrain(99, 101, false), Blocks::DIRT);
    assert_eq!(classify_terrain(100, 101, false), Blocks::STONE);
    assert_eq!(classify_terrain(i32::MAX, i32::MIN, false), Blocks::AIR);
    assert_eq!(classify_terrain(i32::MIN, i32::MAX, false), Blocks::STONE);
}

#[test]
fn a_generated_chunk_follows_the_heights_and_caves() {
    let mut heights = vec![10; 256];
    heights[3 * 16 + 2] = 40; // column x = 2, z = 3
    let mut caves = vec![false; 65536];
    // cell (2, 20, 3): slice 1, y 4 in the slice
    caves[4096 + 3 * 256 + 4 * 16 + 2] = true;
    let terrain = TerrainSample { heights, caves, trees: vec![false; 256] };
    assert!(terrain.is_well_formed());
    let chunk = Chunk::new(Vector2::new(-2, 5), &terrain, &no_tree(), &mut HashMap::new());
    assert_eq!(chunk.position(), Vector2::new(-2, 5));
    assert_eq!(chunk.get_block_at(2, 40, 3).get_block(), Blocks::GRASS);
    assert_eq!(chunk.get_block_at(2, 41, 3).get_block(), Blocks::AIR);
    assert_eq!(chunk.get_block_at(2, 38, 3).get_block(), Blocks::DIRT);
    assert_eq!(chunk.get_block_at(2, 20, 3).get_block(), Blocks::AIR);
    assert_eq!(chunk.get_block_at(2, 21, 3).get_block(), Blocks::STONE);
    assert_eq!(chunk.get_block_at(3, 20, 3).get_block(), Blocks::AIR);
    assert_eq!(chunk.get_block_at(3, 10, 3).get_block(), Blocks::GRASS);
    assert_eq!(chunk.get_block_at(2, 40, 3).get_absolute_position(), Vector3::new(-30, 40, 83));
    assert_eq!(chunk.get_surface_block_y(2, 3), 40);
    assert_eq!(chunk.get_surface_block_y(3, 3), 10);
    for slice in 0..16 {
        assert!(chunk.state(slice) == ChunkState::RequiresLighting);
        assert!(chunk.transparent_quads(slice).is_empty());
    }
}

#[test]
fn the_surface_of_an_empty_column_is_zero() {
    let terrain =
        TerrainSample { heights: vec![-5; 256], caves: vec![false; 65536], trees: vec![false; 256] };
    let chunk = Chunk::new(Vector2::new(0, 0), &terrain, &no_tree(), &mut HashMap::new());
    assert_eq!(chunk.get_surface_block_y(0, 0), 0);
    assert_eq!(chunk.get_block_at(0, 0, 0).get_block(), Blocks::AIR);
}

#[test]
fn a_malformed_terrain_sample_is_told_apart() {
    let short = TerrainSample { heights: vec![0; 255], caves: vec![false; 65536], trees: vec![false; 256] };
    assert!(!short.is_well_formed());
}

#[test]
fn structure_blocks_come_layer_by_layer_from_the_top() {
    let tree = small_tree();
    assert!(tree.is_well_formed());
    assert!(tree.fits_at(Vector3::new(8, 11, 8)));
    let blocks = get_blocks_for_structure_at_point(&tree, Vector3::new(8, 11, 8));
    assert_eq!(blocks.len(), 27);
    // the first block is the far corner of the top layer
    assert_eq!(blocks[0].get_absolute_position(), Vector3::new(7, 13, 7));
    assert_eq!(blocks[0].get_block(), Blocks::AIR);
    assert_eq!(blocks[1].get_absolute_position(), Vector3::new(8, 13, 7));
    assert_eq!(blocks[1].get_block(), Blocks::LEAF);
    assert_eq!(blocks[4].get_absolute_position(), Vector3::new(8, 13, 8));
    assert_eq!(blocks[4].get_block(), Blocks::LEAF);
    // the trunk stands at the point itself
    assert_eq!(blocks[22].get_absolute_position(), Vector3::new(8, 11, 8));
    assert_eq!(blocks[22].get_block(), Blocks::LOG);
    assert_eq!(blocks[13].get_absolute_position(), Vector3::new(8, 12, 8));
    assert_eq!(blocks[13].get_block(), Blocks::LOG);
    assert_eq!(blocks[26].get_absolute_position(), Vector3::new(9, 11, 9));
    for b in &blocks {
        assert!(b.is_wf());
    }
}

#[test]
fn malformed_structures_are_told_apart() {
    let mut short_layer = small_tree();
    short_layer.schematic[1].pop();
    assert!(!short_layer.is_well_formed());
    let mut unknown_kind = small_tree();
    unknown_kind.schematic[2][4] = 3;
    assert!(!unknown_kind.is_well_formed());
    let mut missing_layer = small_tree();
    missing_layer.schematic.pop();
    assert!(!missing_layer.is_well_formed());
    let mut too_wide = small_tree();
    too_wide.widthx = 40000;
    assert!(!too_wide.is_well_formed());
    assert!(no_tree().is_well_formed());
    assert!(!small_tree().fits_at(Vector3::new(i32::MAX, 11, 8)));
    assert!(!small_tree().fits_at(Vector3::new(8, i32::MAX - 1, 8)));
}

#[test]
fn a_tree_grows_one_block_above_the_surface() {
    let mut trees = vec![false; 256];
    trees[8 * 16 + 8] = true;
    let terrain = TerrainSample { heights: vec![10; 256], caves: vec![false; 65536], trees };
    let mut extra = HashMap::new();
    let chunk = Chunk::new(Vector2::new(0, 0), &terrain, &small_tree(), &mut extra);
    assert!(extra.is_empty());
    assert_eq!(chunk.get_block_at(8, 11, 8).get_block(), Blocks::LOG);
    assert_eq!(chunk.get_block_at(8, 12, 8).get_block(), Blocks::LOG);
    assert_eq!(chunk.get_block_at(8, 13, 8).get_block(), Blocks::LEAF);
    assert_eq!(chunk.get_block_at(7, 13, 8).get_block(), Blocks::LEAF);
    assert_eq!(chunk.get_block_at(8, 13, 9).get_block(), Blocks::LEAF);
    // the air of the schematic does not carve anything out
    assert_eq!(chunk.get_block_at(7, 13, 7).get_block(), Blocks::AIR);
    assert_eq!(chunk.get_block_at(7, 10, 7).get_block(), Blocks::GRASS);
    assert_eq!(chunk.get_block_at(8, 10, 8).get_block(), Blocks::GRASS);
}

#[test]
fn a_tree_on_the_border_leaves_blocks_for_the_neighbour() {
    let mut trees = vec![false; 256];
    trees[8 * 16 + 15] = true; // column x = 15, z = 8
    let terrain = TerrainSample { heights: vec![10; 256], caves: vec![false; 65536], trees };
    let mut extra = HashMap::new();
    let chunk = Chunk::new(Vector2::new(0, 0), &terrain, &small_tree(), &mut extra);
    assert_eq!(chunk.get_block_at(15, 11, 8).get_block(), Blocks::LOG);
    assert_eq!(chunk.get_block_at(14, 13, 8).get_block(), Blocks::LEAF);
    // nine blocks of the tree lie in the chunk to the east
    let key = xz_to_index(1, 0);
    assert_eq!(extra.len(), 1);
    assert_eq!(extra[&key].len(), 9);
    assert!(extra[&key].iter().all(|b| b.get_absolute_position().x == 16));
    // the neighbour takes them in when it is generated
    let plain =
        TerrainSample { heights: vec![10; 256], caves: vec![false; 65536], trees: vec![false; 256] };
    let east = Chunk::new(Vector2::new(1, 0), &plain, &small_tree(), &mut extra);
    assert!(extra.is_empty());
    assert_eq!(east.get_block_at(0, 13, 8).get_block(), Blocks::LEAF);
    assert_eq!(east.get_block_at(0, 12, 8).get_block(), Blocks::AIR);
    assert_eq!(east.get_block_at(0, 13, 7).get_block(), Blocks::AIR);
}

#[test]
fn no_tree_grows_where_its_root_is_outside_the_world() {
    let terrain =
        TerrainSample { heights: vec![255; 256], caves: vec![false; 65536], trees: vec![true; 256] };
    let mut extra = HashMap::new();
    let chunk = Chunk::new(Vector2::new(0, 0), &terrain, &small_tree(), &mut extra);
    assert!(extra.is_empty());
    assert_eq!(chunk.get_block_at(8, 255, 8).get_block(), Blocks::STONE);
}

#[test]
fn texture_indices_count_by_use() {
    let aliases: Vec<String> =
        ["dirt", "dirt-normal", "stone", "glow", "leaf"].iter().map(|s| s.to_string()).collect();
    let types = vec![
        TextureType::Diffuse,
        TextureType::Normal,
        TextureType::Diffuse,
        TextureType::Emissive,
        TextureType::Diffuse,
    ];
    let table = assign_texture_indices(&aliases, &types);
    assert_eq!(table.find("default-diffuse"), Some(0));
    assert_eq!(table.find("default-normal"), Some(0));
    assert_eq!(table.find("default-emissive"), Some(0));
    assert_eq!(table.find("dirt"), Some(1));
    assert_eq!(table.find("dirt-normal"), Some(1));
    assert_eq!(table.find("stone"), Some(2));
    assert_eq!(table.find("glow"), Some(1));
    assert_eq!(table.find("leaf"), Some(3));
    assert_eq!(table.find("missing"), None);
    assert_eq!(table.get_indices_from_texture("stone"), 2);
    assert!(table.block_textures().is_none());
}

#[test]
fn block_textures_are_resolved_by_name() {
    let mut table = TextureIndices::new();
    for (n, name) in
        ["dirt", "grass-top", "grass-side", "stone", "log_top", "log", "leaf"].iter().enumerate()
    {
        table.insert(name.to_string(), 10 + n);
    }
    // a later entry shadows an earlier one
    table.insert("stone".to_string(), 99);
    let t = table.block_textures().unwrap();
    assert_eq!(
        (t.dirt, t.grass_top, t.grass_side, t.stone, t.log_top, t.log, t.leaf),
        (10, 11, 12, 99, 14, 15, 16)
    );
}
