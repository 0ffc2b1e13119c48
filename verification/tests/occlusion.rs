use std::collections::HashMap;
use std::sync::Arc;

use voxel_world::blocks::{create_block_default, BlockFace, Blocks};
use voxel_world::chunk::{xz_to_index, Chunk, TerrainSample};
use voxel_world::mesher::{build_chunk_mesh, greedy_mesh_binary_plane, make_vertex_u32, GreedyQuad, IVec3};
use voxel_world::structure_loader::StructureData;
use voxel_world::vector::{Vector2, Vector3};
use voxel_world::world::ChunkMap;

fn ground(height: i32) -> ChunkMap {
    let mut chunks = ChunkMap::new();
    let tree = StructureData { blocks: vec![], widthx: 0, widthz: 0, height: 0, schematic: vec![] };
    let terrain =
        TerrainSample { heights: vec![height; 256], caves: vec![false; 65536], trees: vec![false; 256] };
    chunks.insert(Arc::new(Chunk::new(Vector2::new(0, 0), &terrain, &tree, &mut HashMap::new())));
    chunks
}

fn occlusion_of(word: u32) -> u32 {
    (word >> 18) & 7
}

fn normal_of(word: u32) -> u32 {
    (word >> 21) & 15
}

fn kind_of(word: u32) -> u32 {
    word >> 25
}

#[test]
fn occlusion_quad_words_in_winding_order() {
    let q = GreedyQuad { x: 1, y: 2, w: 3, h: 4 };
    let mut words = vec![];
    q.append_vertices(&mut words, BlockFace::Top, 5, 0, 3);
    let corner = |x, z| make_vertex_u32(IVec3::new(x, 6, z), 0, 3, 3);
    // a face that looks up keeps its first corner and reverses the others
    assert_eq!(words, vec![corner(1, 2), corner(1, 6), corner(4, 6), corner(4, 2)]);
    let mut words = vec![];
    q.append_vertices(&mut words, BlockFace::Bottom, 5, 0, 3);
    let corner = |x, z| make_vertex_u32(IVec3::new(x, 5, z), 0, 2, 3);
    assert_eq!(words, vec![corner(1, 2), corner(4, 2), corner(4, 6), corner(1, 6)]);
}

#[test]
fn occlusion_of_one_corner_turns_the_quad() {
    let q = GreedyQuad { x: 0, y: 0, w: 1, h: 1 };
    let mut words = vec![];
    // only the first of the nine samples stops light: it shades the first corner
    q.append_vertices(&mut words, BlockFace::Bottom, 0, 0b000000001, 1);
    let corner = |x, z, ao| make_vertex_u32(IVec3::new(x, 0, z), ao, 2, 1);
    assert_eq!(words, vec![corner(1, 0, 0), corner(1, 1, 0), corner(0, 1, 0), corner(0, 0, 1)]);
}

#[test]
fn occlusion_counts_two_edges_and_a_diagonal() {
    let q = GreedyQuad { x: 0, y: 0, w: 1, h: 1 };
    let mut words = vec![];
    q.append_vertices(&mut words, BlockFace::Bottom, 0, 0b111111111, 1);
    assert_eq!(words.len(), 4);
    for w in words {
        assert_eq!(occlusion_of(w), 3);
    }
}

#[test]
fn plane_of_thirty_two_rows_merges_in_the_first_sixteen() {
    let mut plane = [0u32; 32];
    for row in 14..18 {
        plane[row] = 0b11;
    }
    let quads = greedy_mesh_binary_plane(plane);
    assert_eq!(
        quads,
        vec![
            GreedyQuad { x: 14, y: 0, w: 2, h: 2 },
            GreedyQuad { x: 16, y: 0, w: 1, h: 2 },
            GreedyQuad { x: 17, y: 0, w: 1, h: 2 },
        ]
    );
}

#[test]
fn occlusion_mesh_of_air_is_nothing() {
    let chunks = ground(10);
    let chunk = chunks.get(xz_to_index(0, 0)).unwrap().clone();
    assert!(build_chunk_mesh(&chunk, &chunks, 5).is_none());
    assert!(build_chunk_mesh(&chunk, &chunks, 16).is_none());
}

#[test]
fn occlusion_mesh_of_a_lone_block_is_six_unshaded_quads() {
    let mut chunks = ground(10);
    assert!(chunks.set_block(create_block_default(Blocks::STONE, Vector3::new(3, 40, 3))));
    let chunk = chunks.get(xz_to_index(0, 0)).unwrap().clone();
    let (vertices, indices) = build_chunk_mesh(&chunk, &chunks, 2).unwrap();
    assert_eq!(vertices.len(), 24);
    assert_eq!(indices.len(), 36);
    let mut normals = [0; 6];
    for quad in vertices.chunks(4) {
        normals[normal_of(quad[0]) as usize] += 1;
        for w in quad {
            assert_eq!(occlusion_of(*w), 0);
            assert_eq!(kind_of(*w), 3);
        }
    }
    assert_eq!(normals, [1, 1, 1, 1, 1, 1]);
}

#[test]
fn occlusion_mesh_of_flat_ground_is_fourteen_quads() {
    let chunks = ground(10);
    let chunk = chunks.get(xz_to_index(0, 0)).unwrap().clone();
    let (vertices, indices) = build_chunk_mesh(&chunk, &chunks, 0).unwrap();
    assert_eq!(vertices.len(), 56);
    assert_eq!(indices.len(), 84);
}

#[test]
fn a_pillar_shades_the_ground_around_it() {
    let mut chunks = ground(10);
    assert!(chunks.set_block(create_block_default(Blocks::STONE, Vector3::new(8, 11, 8))));
    let chunk = chunks.get(xz_to_index(0, 0)).unwrap().clone();
    let (vertices, _) = build_chunk_mesh(&chunk, &chunks, 0).unwrap();
    // the ground is no longer one quad, and some of its corners are shaded
    assert!(vertices.len() > 56 + 20);
    let top_of_ground: Vec<_> = vertices
        .chunks(4)
        .filter(|q| normal_of(q[0]) == 3 && (q[0] >> 6) & 63 == 11)
        .collect();
    assert!(top_of_ground.len() > 1);
    assert!(top_of_ground.iter().any(|q| q.iter().any(|w| occlusion_of(*w) > 0)));
    assert!(top_of_ground.iter().any(|q| q.iter().all(|w| occlusion_of(*w) == 0)));
    // leaves do not shade and are not meshed here
    let mut with_leaf = ground(10);
    assert!(with_leaf.set_block(create_block_default(Blocks::LEAF, Vector3::new(8, 11, 8))));
    let chunk = with_leaf.get(xz_to_index(0, 0)).unwrap().clone();
    let (vertices, _) = build_chunk_mesh(&chunk, &with_leaf, 0).unwrap();
    assert_eq!(vertices.len(), 56);
}
