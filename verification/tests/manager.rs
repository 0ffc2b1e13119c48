use std::collections::HashMap;
use std::sync::Arc;

use voxel_world::blocks::{create_block_default, BlockTextures, Blocks};
use voxel_world::chunk::{xz_to_index, Chunk, ChunkState, TerrainSample};
use voxel_world::chunk_manager::{
    chunks_in_range, get_block_at_absolute, mesh_slice_arrayed, push_n, ChunkManager,
};
use voxel_world::chunkactionqueue::ChunkAction;
use voxel_world::nearest::{sort_nearest_first, squared_distance};
use voxel_world::structure_loader::StructureData;
use voxel_world::vector::{Vector2, Vector3};

fn lit_manager(radius: u32) -> ChunkManager {
    let mut manager = ChunkManager::new();
    manager.render_distance = radius;
    let tree = StructureData { blocks: vec![], widthx: 0, widthz: 0, height: 0, schematic: vec![] };
    let terrain =
        TerrainSample { heights: vec![10; 256], caves: vec![false; 65536], trees: vec![false; 256] };
    let requests = manager.generate_chunks(Vector2::new(0, 0));
    let mut complete = false;
    for r in requests {
        assert!(!complete);
        let chunk = Chunk::new(Vector2::new(r.x, r.z), &terrain, &tree, &mut manager.extra_blocks);
        complete = manager.accept_chunk(Arc::new(chunk));
    }
    assert!(complete);
    manager.generate_chunk_illumination();
    manager
}

fn drain_mesh_requests(manager: &mut ChunkManager) -> Vec<Vector3> {
    let mut out = vec![];
    while let Some(action) = manager.update_queue.get_next_action() {
        match action {
            ChunkAction::UpdateChunkMesh(p) => out.push(p),
            _ => panic!("only mesh requests are expected"),
        }
    }
    out
}

#[test]
fn a_new_manager_is_empty() {
    let manager = ChunkManager::new();
    assert_eq!(manager.render_distance, 5);
    assert_eq!(manager.seed, 6744464);
    assert_eq!(manager.chunks.len(), 0);
    assert!(manager.chunk_buffers.is_empty());
    assert!(manager.unresolved_meshes.is_empty());
    assert!(manager.get_block_at_absolute(0, 0, 0).is_none());
}

#[test]
fn chunks_are_requested_nearest_first() {
    let mut manager = ChunkManager::new();
    let requests = manager.generate_chunks(Vector2::new(0, 0));
    assert_eq!(requests.len(), 121);
    assert_eq!(requests[0], Vector3::new(0, 0, 0));
    let origin = Vector3::new(0, 0, 0);
    for pair in requests.windows(2) {
        assert!(squared_distance(pair[0], origin) <= squared_distance(pair[1], origin));
    }
    assert_eq!(manager.chunk_buffers.len(), 121);
    for r in &requests {
        let record = &manager.chunk_buffers[&xz_to_index(r.x, r.z)];
        assert_eq!(record.position, Vector2::new(r.x, r.z));
        assert_eq!(record.get_solid_buffers().len(), 16);
        assert_eq!(record.get_transparent_buffers().len(), 16);
    }
    // ties keep the order of the square: x by x, and in each x z by z
    assert_eq!(&requests[1..5], &[
        Vector3::new(-1, 0, 0),
        Vector3::new(0, 0, -1),
        Vector3::new(0, 0, 1),
        Vector3::new(1, 0, 0),
    ]);
}

#[test]
fn the_square_of_chunks_in_range() {
    assert_eq!(chunks_in_range(0), vec![Vector3::new(0, 0, 0)]);
    let square = chunks_in_range(1);
    assert_eq!(square.len(), 9);
    assert_eq!(square[0], Vector3::new(-1, 0, -1));
    assert_eq!(square[1], Vector3::new(-1, 0, 0));
    assert_eq!(square[8], Vector3::new(1, 0, 1));
}

#[test]
fn the_world_is_complete_when_every_chunk_has_come() {
    let manager = lit_manager(1);
    assert_eq!(manager.chunks.len(), 9);
    assert_eq!(manager.chunks.get_sunlight_intensity_at(-16, 11, 31), 15);
    assert_eq!(manager.chunks.get_sunlight_intensity_at(0, 9, 0), 0);
    assert_eq!(ChunkManager::get_sunlight_intensity_at(0, 11, 0, &manager.chunks), 15);
    assert_eq!(
        get_block_at_absolute(3, 10, 3, &manager.chunks).unwrap().get_block(),
        Blocks::GRASS
    );
}

#[test]
fn every_slice_is_meshed_nearest_first() {
    let manager = lit_manager(1);
    let jobs = manager.mesh_chunks(Vector3::new(0, 0, 0));
    assert_eq!(jobs.len(), 9 * 16);
    assert_eq!((jobs[0].chunk_x, jobs[0].y_slice, jobs[0].chunk_z), (0, 0, 0));
    let origin = Vector3::new(0, 0, 0);
    let mut last = 0;
    for job in &jobs {
        let d = squared_distance(Vector3::new(job.chunk_x, job.y_slice as i32, job.chunk_z), origin);
        assert!(d >= last);
        last = d;
        assert_eq!(job.chunks.len(), 9);
    }
}

#[test]
fn breaking_a_block_requests_the_slices_around_it() {
    let mut manager = lit_manager(1);
    // in the middle of a slice: only its own slice
    manager.break_block(8, 8, 8);
    assert_eq!(manager.get_block_at_absolute(8, 8, 8).unwrap().get_block(), Blocks::AIR);
    assert_eq!(drain_mesh_requests(&mut manager), vec![Vector3::new(0, 0, 0)]);
    // on the corner of a chunk, in the ground: the slices across the two faces as well
    manager.break_block(0, 5, 15);
    let requests = drain_mesh_requests(&mut manager);
    assert_eq!(requests.len(), 3);
    assert!(requests.contains(&Vector3::new(0, 0, 0)));
    assert!(requests.contains(&Vector3::new(-1, 0, 0)));
    assert!(requests.contains(&Vector3::new(0, 0, 1)));
    // the slice of the edit is nearer to the point beyond the corner than ... itself is not:
    // the order is by distance from (-1, 0, 1)
    let reference = Vector3::new(-1, 0, 1);
    for pair in requests.windows(2) {
        assert!(squared_distance(pair[0], reference) <= squared_distance(pair[1], reference));
    }
}

#[test]
fn breaking_at_the_bottom_of_the_world_requests_no_slice_below() {
    let mut manager = lit_manager(0);
    manager.break_block(8, 0, 8);
    assert_eq!(drain_mesh_requests(&mut manager), vec![Vector3::new(0, 0, 0)]);
    manager.break_block(8, 15, 8);
    let requests = drain_mesh_requests(&mut manager);
    assert_eq!(requests, vec![Vector3::new(0, 1, 0), Vector3::new(0, 0, 0)]);
}

#[test]
fn breaking_where_nothing_is_loaded_does_nothing() {
    let mut manager = lit_manager(0);
    manager.break_block(100, 5, 100);
    manager.break_block(8, 300, 8);
    assert_eq!(manager.update_queue.len(), 0);
}

#[test]
fn placing_a_block_takes_the_light_back() {
    let mut manager = lit_manager(1);
    manager.place_block(create_block_default(Blocks::STONE, Vector3::new(8, 20, 8)));
    assert_eq!(manager.get_block_at_absolute(8, 20, 8).unwrap().get_block(), Blocks::STONE);
    assert_eq!(manager.chunks.get_sunlight_intensity_at(8, 20, 8), 0);
    assert_eq!(manager.chunks.get_sunlight_intensity_at(8, 19, 8), 14);
    assert_eq!(manager.chunks.get_sunlight_intensity_at(8, 21, 8), 15);
    let requests = drain_mesh_requests(&mut manager);
    assert!(requests.contains(&Vector3::new(0, 1, 0)));
    assert!(requests.contains(&Vector3::new(0, 0, 0)));
    assert_eq!(requests[0], Vector3::new(0, 1, 0));
}

#[test]
fn breaking_a_placed_block_under_the_sky_relights_its_cell() {
    let mut manager = lit_manager(1);
    manager.place_block(create_block_default(Blocks::STONE, Vector3::new(8, 20, 8)));
    manager.break_block(8, 20, 8);
    assert_eq!(manager.chunks.get_sunlight_intensity_at(8, 20, 8), 15);
    // the block beneath keeps the light of its neighbours: it is one step from full light
    assert_eq!(manager.chunks.get_sunlight_intensity_at(8, 19, 8), 14);
}

#[test]
fn placing_and_breaking_in_the_dark_leaves_the_light_alone() {
    let mut manager = lit_manager(0);
    // a closed cave three blocks under the ground
    manager.chunks.set_block(create_block_default(Blocks::AIR, Vector3::new(8, 3, 8)));
    let before: Vec<u8> = (0..16)
        .flat_map(|x| (0..16).flat_map(move |y| (0..16).map(move |z| (x, y, z))))
        .map(|(x, y, z)| manager.chunks.get_sunlight_intensity_at(x, y, z))
        .collect();
    manager.place_block(create_block_default(Blocks::STONE, Vector3::new(8, 3, 8)));
    manager.break_block(8, 3, 8);
    let after: Vec<u8> = (0..16)
        .flat_map(|x| (0..16).flat_map(move |y| (0..16).map(move |z| (x, y, z))))
        .map(|(x, y, z)| manager.chunks.get_sunlight_intensity_at(x, y, z))
        .collect();
    assert_eq!(before, after);
}

#[test]
fn a_frame_applies_edits_then_dispatches_meshes() {
    let mut manager = lit_manager(0);
    manager.action_queue.break_block(Vector3::new(8, 10, 8));
    manager.action_queue.place_block(create_block_default(Blocks::LOG, Vector3::new(3, 11, 3)));
    let jobs = manager.on_frame_action();
    assert_eq!(manager.action_queue.len(), 0);
    assert_eq!(manager.get_block_at_absolute(8, 10, 8).unwrap().get_block(), Blocks::AIR);
    assert_eq!(manager.get_block_at_absolute(3, 11, 3).unwrap().get_block(), Blocks::LOG);
    // both edits touch slice 0 of the one chunk: one job
    assert_eq!(jobs.len(), 1);
    assert_eq!((jobs[0].chunk_x, jobs[0].chunk_z, jobs[0].y_slice), (0, 0, 0));
    assert_eq!(manager.unresolved_meshes, vec![Vector3::new(0, 0, 0)]);
    // the snapshot shows the world after the edits
    assert_eq!(jobs[0].chunks.get_block_at_absolute(8, 10, 8).unwrap().get_block(), Blocks::AIR);
    // a slice that is being meshed is not dispatched again
    manager.action_queue.break_block(Vector3::new(8, 9, 8));
    let again = manager.on_frame_action();
    assert!(again.is_empty());
    // and the snapshot of the first job has not changed
    assert_eq!(jobs[0].chunks.get_block_at_absolute(8, 9, 8).unwrap().get_block(), Blocks::DIRT);
    // when the result has come the slice may be dispatched anew
    let t = BlockTextures { dirt: 1, grass_top: 2, grass_side: 3, stone: 4, log_top: 5, log: 6, leaf: 7 };
    let data = mesh_slice_arrayed(0, 0, 0, &jobs[0].chunks, &t);
    manager.accept_mesh(0, 0, 0, data);
    assert!(manager.unresolved_meshes.is_empty());
    assert!(manager.chunks.get(xz_to_index(0, 0)).unwrap().state(0) == ChunkState::Ready);
    manager.action_queue.break_block(Vector3::new(8, 8, 8));
    assert_eq!(manager.on_frame_action().len(), 1);
}

#[test]
fn a_frame_applies_at_most_fifteen_edits() {
    let mut manager = lit_manager(0);
    for x in 0..16 {
        manager.action_queue.break_block(Vector3::new(x, 10, 0));
    }
    manager.on_frame_action();
    assert_eq!(manager.action_queue.len(), 1);
    assert_eq!(manager.get_block_at_absolute(14, 10, 0).unwrap().get_block(), Blocks::AIR);
    assert_eq!(manager.get_block_at_absolute(15, 10, 0).unwrap().get_block(), Blocks::GRASS);
    manager.on_frame_action();
    assert_eq!(manager.action_queue.len(), 0);
    assert_eq!(manager.get_block_at_absolute(15, 10, 0).unwrap().get_block(), Blocks::AIR);
}

#[test]
fn a_frame_lights_one_chunk() {
    let mut manager = ChunkManager::new();
    manager.render_distance = 1;
    let tree = StructureData { blocks: vec![], widthx: 0, widthz: 0, height: 0, schematic: vec![] };
    let terrain =
        TerrainSample { heights: vec![10; 256], caves: vec![false; 65536], trees: vec![false; 256] };
    for r in manager.generate_chunks(Vector2::new(0, 0)) {
        let chunk = Chunk::new(Vector2::new(r.x, r.z), &terrain, &tree, &mut HashMap::new());
        manager.accept_chunk(Arc::new(chunk));
    }
    manager.update_queue.update_chunk_lighting(Vector2::new(0, 0));
    manager.update_queue.update_chunk_lighting(Vector2::new(1, 0));
    manager.update_queue.update_chunk_mesh(Vector3::new(0, 0, 0));
    let jobs = manager.on_frame_action();
    assert!(jobs.is_empty());
    assert_eq!(manager.update_queue.len(), 2);
    assert_eq!(manager.chunks.get_sunlight_intensity_at(8, 11, 8), 15);
    assert_eq!(manager.chunks.get_sunlight_intensity_at(24, 200, 8), 0);
    let jobs = manager.on_frame_action();
    assert!(jobs.is_empty());
    assert_eq!(manager.chunks.get_sunlight_intensity_at(24, 200, 8), 15);
    let jobs = manager.on_frame_action();
    assert_eq!(jobs.len(), 1);
}

#[test]
fn strayed_requests_are_handed_to_the_right_queue() {
    let mut manager = lit_manager(0);
    manager.action_queue.update_chunk_mesh(Vector3::new(0, 3, 0));
    manager.update_queue.break_block(Vector3::new(8, 10, 8));
    let jobs = manager.on_frame_action();
    assert_eq!(jobs.len(), 1);
    assert_eq!(jobs[0].y_slice, 3);
    // the edit went back to the edit queue and is applied in the next frame
    assert_eq!(manager.action_queue.len(), 1);
    assert_eq!(manager.get_block_at_absolute(8, 10, 8).unwrap().get_block(), Blocks::GRASS);
    manager.on_frame_action();
    assert_eq!(manager.get_block_at_absolute(8, 10, 8).unwrap().get_block(), Blocks::AIR);
}

#[test]
fn a_slice_goes_from_lighting_to_meshing_to_ready() {
    let mut manager = ChunkManager::new();
    manager.render_distance = 0;
    let tree = StructureData { blocks: vec![], widthx: 0, widthz: 0, height: 0, schematic: vec![] };
    let terrain =
        TerrainSample { heights: vec![10; 256], caves: vec![false; 65536], trees: vec![false; 256] };
    // a chunk that was never requested still gets its record when it comes
    assert!(manager.chunk_buffers.is_empty());
    let chunk = Chunk::new(Vector2::new(0, 0), &terrain, &tree, &mut HashMap::new());
    assert!(manager.accept_chunk(Arc::new(chunk)));
    let key = xz_to_index(0, 0);
    assert_eq!(manager.chunk_buffers[&key].position, Vector2::new(0, 0));
    assert_eq!(manager.chunk_buffers[&key].slice_vertex_buffers.len(), 16);
    assert!(manager.chunk_buffers[&key].get_solid_buffer(3).is_none());
    for slice in 0..16 {
        assert!(manager.chunks.get(key).unwrap().state(slice) == ChunkState::RequiresLighting);
    }
    manager.flood_lights(key);
    for slice in 0..16 {
        assert!(manager.chunks.get(key).unwrap().state(slice) == ChunkState::RequiresMeshing);
    }
    let t = BlockTextures { dirt: 1, grass_top: 2, grass_side: 3, stone: 4, log_top: 5, log: 6, leaf: 7 };
    let data = mesh_slice_arrayed(0, 0, 0, &manager.chunks, &t);
    manager.finalize_mesh(0, 0, 0, data);
    assert!(manager.chunks.get(key).unwrap().state(0) == ChunkState::Ready);
    assert!(manager.chunks.get(key).unwrap().state(1) == ChunkState::RequiresMeshing);
    assert_eq!(manager.chunk_buffers[&key].get_solid_buffer(0).unwrap().index_count, 84);
    // lighting again does not take a ready slice back
    manager.flood_lights(key);
    assert!(manager.chunks.get(key).unwrap().state(0) == ChunkState::Ready);
    // results for slices or chunks that are not there are dropped
    let data = mesh_slice_arrayed(0, 0, 0, &manager.chunks, &t);
    manager.finalize_mesh(9, 9, 0, data);
    let data = mesh_slice_arrayed(0, 0, 0, &manager.chunks, &t);
    manager.finalize_mesh(0, 0, 16, data);
    assert_eq!(manager.chunks.len(), 1);
    assert_eq!(manager.chunk_buffers.len(), 1);
}

#[test]
fn indices_are_pushed_with_their_shifts() {
    let mut v = vec![9];
    push_n(&mut v, 100, [0, 1, 2, 1, 3, 2]);
    assert_eq!(v, vec![9, 100, 101, 102, 101, 103, 102]);
}

#[test]
fn sorting_by_distance_is_stable() {
    let points = vec![
        Vector3::new(2, 0, 0),
        Vector3::new(0, 1, 0),
        Vector3::new(0, 0, -1),
        Vector3::new(0, 0, 0),
        Vector3::new(1, 0, 0),
        Vector3::new(-2, 0, 0),
    ];
    let sorted = sort_nearest_first(&points, Vector3::new(0, 0, 0));
    assert_eq!(sorted, vec![
        Vector3::new(0, 0, 0),
        Vector3::new(0, 1, 0),
        Vector3::new(0, 0, -1),
        Vector3::new(1, 0, 0),
        Vector3::new(2, 0, 0),
        Vector3::new(-2, 0, 0),
    ]);
    assert_eq!(squared_distance(Vector3::new(1, 2, 3), Vector3::new(-1, 0, 6)), 4 + 4 + 9);
    assert_eq!(
        squared_distance(Vector3::new(i32::MIN, i32::MIN, i32::MIN), Vector3::new(i32::MAX, i32::MAX, i32::MAX)),
        3 * (4294967295i128 * 4294967295i128)
    );
}
