use voxel_world::blocks::{create_block_default, Blocks};
use voxel_world::chunkactionqueue::{ChunkAction, ChunkActionQueue};
use voxel_world::vector::{Vector2, Vector3};

fn is_mesh(a: &Option<ChunkAction>, x: i32, y: i32, z: i32) -> bool {
    matches!(a, Some(ChunkAction::UpdateChunkMesh(p)) if *p == Vector3::new(x, y, z))
}

#[test]
fn a_new_queue_is_empty() {
    let mut q = ChunkActionQueue::new();
    assert_eq!(q.len(), 0);
    assert!(q.get_next_action().is_none());
    assert_eq!(q.len(), 0);
}

#[test]
fn repeated_mesh_requests_collapse_into_one() {
    let mut q = ChunkActionQueue::new();
    for _ in 0..7 {
        q.update_chunk_mesh(Vector3::new(1, 2, 3));
    }
    assert_eq!(q.len(), 1);
    assert!(is_mesh(&q.get_next_action(), 1, 2, 3));
    assert_eq!(q.len(), 0);
    // once it has been taken out, the same request is accepted again
    q.update_chunk_mesh(Vector3::new(1, 2, 3));
    assert_eq!(q.len(), 1);
    assert!(is_mesh(&q.get_next_action(), 1, 2, 3));
    assert!(q.get_next_action().is_none());
}

#[test]
fn repeated_lighting_requests_collapse_into_one() {
    let mut q = ChunkActionQueue::new();
    q.update_chunk_lighting(Vector2::new(4, -4));
    q.update_chunk_lighting(Vector2::new(4, -4));
    q.update_chunk_lighting(Vector2::new(-4, 4));
    assert_eq!(q.len(), 2);
    assert!(matches!(q.get_next_action(), Some(ChunkAction::UpdateChunkLighting(p)) if p == Vector2::new(4, -4)));
    assert!(matches!(q.get_next_action(), Some(ChunkAction::UpdateChunkLighting(p)) if p == Vector2::new(-4, 4)));
}

#[test]
fn requests_for_different_targets_are_kept_in_order() {
    let mut q = ChunkActionQueue::new();
    q.update_chunk_mesh(Vector3::new(0, 0, 0));
    q.update_chunk_mesh(Vector3::new(0, 1, 0));
    q.update_chunk_mesh(Vector3::new(0, 0, 0));
    q.update_chunk_lighting(Vector2::new(0, 0));
    q.update_chunk_mesh(Vector3::new(0, 1, 0));
    assert_eq!(q.len(), 3);
    assert!(is_mesh(&q.get_next_action(), 0, 0, 0));
    assert!(is_mesh(&q.get_next_action(), 0, 1, 0));
    assert!(matches!(q.get_next_action(), Some(ChunkAction::UpdateChunkLighting(_))));
    assert!(q.get_next_action().is_none());
}

#[test]
fn a_request_behind_other_work_is_still_found() {
    let mut q = ChunkActionQueue::new();
    q.update_chunk_mesh(Vector3::new(9, 9, 9));
    q.update_chunk_mesh(Vector3::new(1, 1, 1));
    assert!(is_mesh(&q.get_next_action(), 9, 9, 9));
    q.update_chunk_mesh(Vector3::new(1, 1, 1));
    assert_eq!(q.len(), 1);
}

#[test]
fn edits_are_never_merged() {
    let mut q = ChunkActionQueue::new();
    let stone = create_block_default(Blocks::STONE, Vector3::new(1, 2, 3));
    q.break_block(Vector3::new(1, 2, 3));
    q.break_block(Vector3::new(1, 2, 3));
    q.place_block(stone);
    q.place_block(stone);
    assert_eq!(q.len(), 4);
    assert!(matches!(q.get_next_action(), Some(ChunkAction::BreakBlock(p)) if p == Vector3::new(1, 2, 3)));
    assert!(matches!(q.get_next_action(), Some(ChunkAction::BreakBlock(_))));
    assert!(matches!(q.get_next_action(), Some(ChunkAction::PlaceBlock(b)) if b.get_block() == Blocks::STONE));
    assert!(matches!(q.get_next_action(), Some(ChunkAction::PlaceBlock(_))));
    assert!(q.get_next_action().is_none());
}
