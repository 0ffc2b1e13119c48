use std::collections::HashMap;
use std::sync::Arc;

use voxel_world::binarymesher::{
    binary_mesh, generate_indices, greedy_mesh_binary_plane, GreedyQuad, MeshStageType,
};
use voxel_world::blocks::{
    calculate_illumination_bytes, create_block_default, BlockFace, BlockTextures, Blocks,
};
use voxel_world::chunk::{xz_to_index, Chunk, ChunkState, TerrainSample};
use voxel_world::chunk_manager::{mesh_slice_arrayed, ChunkManager};
use voxel_world::lighting::flood_lights;
use voxel_world::structure_loader::StructureData;
use voxel_world::surfacevertex::SurfaceVertex;
use voxel_world::vector::{Vector2, Vector3};
use voxel_world::world::ChunkMap;

fn textures() -> BlockTextures {
    BlockTextures { dirt: 1, grass_top: 2, grass_side: 3, stone: 4, log_top: 5, log: 6, leaf: 7 }
}

fn mesh_test_world(height: i32) -> ChunkMap {
    let mut chunks = ChunkMap::new();
    let tree = StructureData { blocks: vec![], widthx: 0, widthz: 0, height: 0, schematic: vec![] };
    let terrain =
        TerrainSample { heights: vec![height; 256], caves: vec![false; 65536], trees: vec![false; 256] };
    chunks.insert(Arc::new(Chunk::new(Vector2::new(0, 0), &terrain, &tree, &mut HashMap::new())));
    chunks
}

fn face_of(v: &SurfaceVertex) -> u32 {
    (v.d0 >> 15) & 7
}

fn position_of(v: &SurfaceVertex) -> (u32, u32, u32) {
    (v.d0 & 31, (v.d0 >> 5) & 31, (v.d0 >> 10) & 31)
}

fn quad(x: u32, y: u32, w: u32, h: u32) -> GreedyQuad {
    GreedyQuad { x, y, w, h }
}

#[test]
fn greedy_plane_of_nothing_is_empty() {
    assert_eq!(greedy_mesh_binary_plane([0u32; 16]), vec![]);
}

#[test]
fn greedy_single_face_is_one_unit_quad() {
    let mut plane = [0u32; 16];
    plane[5] = 1 << 7;
    assert_eq!(greedy_mesh_binary_plane(plane), vec![quad(5, 7, 1, 1)]);
}

#[test]
fn greedy_rectangle_is_one_quad() {
    let mut plane = [0u32; 16];
    for row in 3..9 {
        plane[row] = 0b1111 << 2;
    }
    assert_eq!(greedy_mesh_binary_plane(plane), vec![quad(3, 2, 6, 4)]);
}

#[test]
fn greedy_full_plane_is_one_quad() {
    assert_eq!(greedy_mesh_binary_plane([0xffffu32; 16]), vec![quad(0, 0, 16, 16)]);
}

#[test]
fn greedy_l_shape_is_two_quads() {
    let mut plane = [0u32; 16];
    plane[0] = 0b111;
    plane[1] = 0b001;
    plane[2] = 0b001;
    // the run of row 0 does not fit the rows beside it; what is left of them merges
    assert_eq!(greedy_mesh_binary_plane(plane), vec![quad(0, 0, 1, 3), quad(1, 0, 2, 1)]);
}

#[test]
fn greedy_two_runs_in_a_row_are_two_quads() {
    let mut plane = [0u32; 16];
    plane[4] = 0b1100_0110;
    assert_eq!(greedy_mesh_binary_plane(plane), vec![quad(4, 1, 1, 2), quad(4, 6, 1, 2)]);
}

#[test]
fn greedy_quads_cover_every_face_once() {
    let mut plane = [0u32; 16];
    for row in 0..16u32 {
        plane[row as usize] = (row * 2654435761u32.wrapping_mul(row + 1)) & 0xffff;
    }
    let quads = greedy_mesh_binary_plane(plane);
    let mut covered = [0u32; 16];
    for q in &quads {
        for r in q.x..q.x + q.w {
            for c in q.y..q.y + q.h {
                assert_eq!(plane[r as usize] >> c & 1, 1);
                assert_eq!(covered[r as usize] >> c & 1, 0);
                covered[r as usize] |= 1 << c;
            }
        }
    }
    assert_eq!(covered, plane);
}

#[test]
fn greedy_runs_that_start_above_bit_16_are_left_out() {
    let mut plane = [0u32; 16];
    plane[0] = 1 << 20;
    assert_eq!(greedy_mesh_binary_plane(plane), vec![]);
}

#[test]
fn indices_are_two_triangles_a_quad() {
    assert_eq!(generate_indices(8), vec![0, 1, 2, 0, 2, 3, 4, 5, 6, 4, 6, 7]);
    assert_eq!(generate_indices(7), vec![0, 1, 2, 0, 2, 3]);
    assert_eq!(generate_indices(3), Vec::<u32>::new());
}

#[test]
fn vertex_word_packs_its_fields() {
    let v = SurfaceVertex::from_position([1, 2, 3], BlockFace::Top, 2, (5, 0, 0), 7);
    assert_eq!(v.d0, 1 + (2 << 5) + (3 << 10) + (0 << 15) + (2 << 18) + (5 << 20));
    assert_eq!(v.d0, 5770305);
    assert_eq!(v.illumination, 7);
    let back = SurfaceVertex::from_position([16, 0, 16], BlockFace::Back, 3, (63, 0, 0), 0);
    assert_eq!(back.d0, 16 + (16 << 10) + (5 << 15) + (3 << 18) + (63 << 20));
}

#[test]
fn illumination_word_packs_light_and_sun() {
    let mut b = create_block_default(Blocks::AIR, Vector3::new(0, 0, 0));
    b.set_light([1, 2, 3]);
    b.set_sunlight_intensity(4);
    assert_eq!(calculate_illumination_bytes(&b), 1 + 2 * 256 + 3 * 65536 + 4 * 16777216);
    assert_eq!(calculate_illumination_bytes(&b), 67305985);
    b.reset_light();
    assert_eq!(calculate_illumination_bytes(&b), 0);
}

#[test]
fn a_slice_of_air_has_no_geometry() {
    let chunks = mesh_test_world(10);
    let t = textures();
    let ((v, i, n), (vt, it, nt, quads)) = mesh_slice_arrayed(0, 0, 5, &chunks, &t);
    assert!(v.is_empty() && i.is_empty() && n == 0);
    assert!(vt.is_empty() && it.is_empty() && nt == 0 && quads.is_empty());
}

#[test]
fn an_empty_mesh_still_marks_the_slice_ready() {
    let mut manager = ChunkManager::new();
    manager.generate_chunks(Vector2::new(0, 0));
    let tree = StructureData { blocks: vec![], widthx: 0, widthz: 0, height: 0, schematic: vec![] };
    let terrain =
        TerrainSample { heights: vec![10; 256], caves: vec![false; 65536], trees: vec![false; 256] };
    manager
        .accept_chunk(Arc::new(Chunk::new(Vector2::new(0, 0), &terrain, &tree, &mut HashMap::new())));
    let key = xz_to_index(0, 0);
    assert!(manager.chunks.get(key).unwrap().state(5) == ChunkState::RequiresLighting);
    let data = mesh_slice_arrayed(0, 0, 5, &manager.chunks, &textures());
    manager.unresolved_meshes.push(Vector3::new(0, 5, 0));
    manager.accept_mesh(0, 0, 5, data);
    assert!(manager.chunks.get(key).unwrap().state(5) == ChunkState::Ready);
    assert!(manager.chunks.get(key).unwrap().state(4) == ChunkState::RequiresLighting);
    assert!(manager.unresolved_meshes.is_empty());
    let record = &manager.chunk_buffers[&key];
    assert_eq!(record.get_solid_buffer(5).unwrap().index_count, 0);
    assert!(record.get_solid_buffer(5).unwrap().vertices.is_empty());
    assert!(record.get_transparent_buffer(5).unwrap().vertices.is_empty());
    assert!(record.get_solid_buffer(4).is_none());
    assert_eq!(record.slice_vertex_buffers.len(), 16);
    assert_eq!(record.slice_vertex_buffers[5].position_sliced, [0, 5, 0]);
}

#[test]
fn meshing_a_missing_chunk_or_slice_is_empty() {
    let chunks = mesh_test_world(10);
    let t = textures();
    let (v, i, n, q) = binary_mesh(3, 3, 0, &chunks, MeshStageType::Solid, &t);
    assert!(v.is_empty() && i.is_empty() && n == 0 && q.is_empty());
    let (v, i, n, q) = binary_mesh(0, 0, 16, &chunks, MeshStageType::Solid, &t);
    assert!(v.is_empty() && i.is_empty() && n == 0 && q.is_empty());
}

#[test]
fn a_box_of_stone_in_the_air_is_six_quads() {
    for (sx, sy, sz) in [(1, 1, 1), (2, 3, 4), (5, 1, 2), (14, 14, 14)] {
        let mut chunks = mesh_test_world(10);
        // a box in slice 2, well above the ground
        for x in 1..1 + sx {
            for y in 33..33 + sy {
                for z in 1..1 + sz {
                    assert!(chunks.set_block(create_block_default(Blocks::STONE, Vector3::new(x, y, z))));
                }
            }
        }
        let t = textures();
        let (vertices, indices, count, quads) =
            binary_mesh(0, 0, 2, &chunks, MeshStageType::Solid, &t);
        assert_eq!(quads.len(), 6);
        assert_eq!(vertices.len(), 24);
        assert_eq!(indices.len(), 36);
        assert_eq!(count, 36);
        // one quad a face direction
        let mut seen = [0u32; 6];
        for quad in quads.chunks(1) {
            seen[face_of(&quad[0].vertices[0]) as usize] += 1;
        }
        assert_eq!(seen, [1, 1, 1, 1, 1, 1]);
        // nothing of it in the transparent pass
        let (vt, _, _, qt) = binary_mesh(0, 0, 2, &chunks, MeshStageType::Transparent, &t);
        assert!(vt.is_empty() && qt.is_empty());
    }
}

#[test]
fn the_top_quad_of_a_box_spans_the_box() {
    let mut chunks = mesh_test_world(10);
    for x in 2..5 {
        for z in 6..8 {
            assert!(chunks.set_block(create_block_default(Blocks::STONE, Vector3::new(x, 40, z))));
        }
    }
    let t = textures();
    let (_, _, _, quads) = binary_mesh(0, 0, 2, &chunks, MeshStageType::Solid, &t);
    let top: Vec<_> = quads.iter().filter(|q| face_of(&q.vertices[0]) == 0).collect();
    assert_eq!(top.len(), 1);
    let corners: Vec<_> = top[0].vertices.iter().map(position_of).collect();
    // the layer of the block is 40 - 32 = 8; a face that looks up sits one higher
    assert_eq!(corners, vec![(2, 9, 6), (5, 9, 6), (5, 9, 8), (2, 9, 8)]);
    // texture of stone, corner numbers 0..4
    for (n, v) in top[0].vertices.iter().enumerate() {
        assert_eq!(v.d0 >> 20, 4);
        assert_eq!((v.d0 >> 18) & 3, n as u32);
    }
    assert_eq!(top[0].center, Vector3::new(2, 40, 6));
}

#[test]
fn faces_that_look_up_are_wound_backwards() {
    let mut chunks = mesh_test_world(10);
    assert!(chunks.set_block(create_block_default(Blocks::STONE, Vector3::new(3, 40, 3))));
    let t = textures();
    let (vertices, _, _, quads) = binary_mesh(0, 0, 2, &chunks, MeshStageType::Solid, &t);
    for (n, quad) in quads.iter().enumerate() {
        let emitted = &vertices[4 * n..4 * n + 4];
        let c = &quad.vertices;
        let reversed = match face_of(&c[0]) {
            0 | 2 | 4 => true,
            _ => false,
        };
        if reversed {
            assert_eq!(emitted, &[c[0], c[3], c[2], c[1]]);
        } else {
            assert_eq!(emitted, &[c[0], c[1], c[2], c[3]]);
        }
    }
}

#[test]
fn flat_ground_meshes_into_fourteen_quads() {
    let mut chunks = mesh_test_world(10);
    flood_lights(&mut chunks, xz_to_index(0, 0));
    let t = textures();
    let (vertices, indices, count, quads) = binary_mesh(0, 0, 0, &chunks, MeshStageType::Solid, &t);
    // top and bottom one quad each; each of the four sides one quad a kind
    assert_eq!(quads.len(), 14);
    assert_eq!(vertices.len(), 56);
    assert_eq!(indices.len(), 84);
    assert_eq!(count, 84);
    let top: Vec<_> = quads.iter().filter(|q| face_of(&q.vertices[0]) == 0).collect();
    assert_eq!(top.len(), 1);
    // the grass is lit by the air above it: full sunlight in the top byte
    assert_eq!(top[0].vertices[0].illumination, 15 << 24);
    assert_eq!(top[0].vertices[0].d0 >> 20, 2);
    let bottom: Vec<_> = quads.iter().filter(|q| face_of(&q.vertices[0]) == 1).collect();
    assert_eq!(bottom.len(), 1);
    assert_eq!(bottom[0].vertices[0].illumination, 0);
    assert_eq!(bottom[0].vertices[0].d0 >> 20, 4);
}

#[test]
fn faces_with_different_light_are_not_merged() {
    let mut chunks = mesh_test_world(10);
    // a roof shades part of the ground
    for x in 4..8 {
        for z in 4..8 {
            assert!(chunks.set_block(create_block_default(Blocks::STONE, Vector3::new(x, 20, z))));
        }
    }
    flood_lights(&mut chunks, xz_to_index(0, 0));
    let t = textures();
    let (_, _, _, quads) = binary_mesh(0, 0, 0, &chunks, MeshStageType::Solid, &t);
    let top: Vec<_> = quads.iter().filter(|q| face_of(&q.vertices[0]) == 0).collect();
    assert!(top.len() > 1);
    let mut covered = [[false; 16]; 16];
    for q in &top {
        let corners: Vec<_> = q.vertices.iter().map(position_of).collect();
        let light = q.vertices[0].illumination;
        for v in q.vertices.iter() {
            assert_eq!(v.illumination, light);
        }
        // every face under the quad sees exactly the light that the quad carries
        for x in corners[0].0..corners[2].0 {
            for z in corners[0].2..corners[2].2 {
                let above = chunks.get_block_at_absolute(x as i32, 11, z as i32).unwrap();
                assert_eq!(calculate_illumination_bytes(above), light);
                assert!(!covered[x as usize][z as usize]);
                covered[x as usize][z as usize] = true;
            }
        }
    }
    assert!(covered.iter().all(|row| row.iter().all(|c| *c)));
    // the shaded and the sunlit ground differ in light
    let shaded = chunks.get_sunlight_intensity_at(5, 11, 5);
    assert!(shaded < 15);
    assert_eq!(chunks.get_sunlight_intensity_at(0, 11, 0), 15);
}

#[test]
fn leaves_mesh_in_the_transparent_pass_only() {
    let mut chunks = mesh_test_world(10);
    assert!(chunks.set_block(create_block_default(Blocks::LEAF, Vector3::new(3, 40, 3))));
    assert!(chunks.set_block(create_block_default(Blocks::LEAF, Vector3::new(4, 40, 3))));
    let t = textures();
    let ((v, i, n), (vt, it, nt, quads)) = mesh_slice_arrayed(0, 0, 2, &chunks, &t);
    assert!(v.is_empty() && i.is_empty() && n == 0);
    assert_eq!(quads.len(), 6);
    assert_eq!(vt.len(), 24);
    assert_eq!(it.len(), 36);
    assert_eq!(nt, 36);
    for q in &quads {
        assert_eq!(q.vertices[0].d0 >> 20, 7);
    }
}

#[test]
fn a_leaf_shows_its_face_to_stone_and_stone_to_the_leaf() {
    let mut chunks = mesh_test_world(10);
    assert!(chunks.set_block(create_block_default(Blocks::LEAF, Vector3::new(3, 40, 3))));
    assert!(chunks.set_block(create_block_default(Blocks::STONE, Vector3::new(4, 40, 3))));
    let t = textures();
    let ((_, _, _), (_, _, _, transparent)) = mesh_slice_arrayed(0, 0, 2, &chunks, &t);
    let (_, _, _, solid) = binary_mesh(0, 0, 2, &chunks, MeshStageType::Solid, &t);
    assert_eq!(transparent.len(), 6);
    assert_eq!(solid.len(), 6);
}

#[test]
fn the_halo_culls_faces_at_chunk_borders() {
    let mut chunks = ChunkMap::new();
    let tree = StructureData { blocks: vec![], widthx: 0, widthz: 0, height: 0, schematic: vec![] };
    let terrain =
        TerrainSample { heights: vec![10; 256], caves: vec![false; 65536], trees: vec![false; 256] };
    for x in -1..=1 {
        for z in -1..=1 {
            chunks.insert(Arc::new(Chunk::new(
                Vector2::new(x, z),
                &terrain,
                &tree,
                &mut HashMap::new(),
            )));
        }
    }
    let t = textures();
    let (_, _, _, quads) = binary_mesh(0, 0, 0, &chunks, MeshStageType::Solid, &t);
    // surrounded by ground on all sides: only top and bottom are left
    assert_eq!(quads.len(), 2);
}
