use voxel_world::blocks::{create_block_default, BlockFace, BlockTextures, Blocks};
use voxel_world::chunk::{
    local_xyz_to_index, local_xz_to_index, local_xz_to_index_dynamic, xz_to_index,
};
use voxel_world::mesher::{
    get_edging_chunk, index_to_ivec3, index_to_ivec3_bounds, index_to_ivec3_bounds_reverse,
    is_on_edge, make_vertex_u32, vec3_to_index, IVec3,
};
use voxel_world::vector::{div16, rem16, Vector3};

#[test]
fn index_functions() {
    for z in 0..32 {
        for y in 0..32 {
            for x in 0..32 {
                let pos = IVec3::new(x, y, z);
                let index = vec3_to_index(pos, 32);
                let from_index = index_to_ivec3_bounds(index as i32, 32);
                assert_eq!(pos, from_index);
            }
        }
    }
}

#[test]
fn index_of_a_position_counts_x_fastest() {
    assert_eq!(vec3_to_index(IVec3::new(1, 2, 3), 32), 1 + 2 * 32 + 3 * 1024);
    assert_eq!(vec3_to_index(IVec3::new(1, 2, 3), 32), 3137);
    assert_eq!(index_to_ivec3(3137), IVec3::new(1, 2, 3));
    assert_eq!(index_to_ivec3_bounds(3137, 32), IVec3::new(1, 2, 3));
    assert_eq!(index_to_ivec3_bounds_reverse(3137, 32), IVec3::new(3, 2, 1));
    assert_eq!(index_to_ivec3_bounds(7, 2), IVec3::new(1, 1, 1));
}

#[test]
fn negative_indices_round_towards_zero() {
    assert_eq!(index_to_ivec3(-33), IVec3::new(-1, -1, 0));
    assert_eq!(index_to_ivec3(-1025), IVec3::new(-1, 0, -1));
    assert_eq!(index_to_ivec3_bounds(-7, 2), IVec3::new(-1, -1, -1));
    assert_eq!(index_to_ivec3(i32::MIN), IVec3::new(0, 0, -2097152));
    assert_eq!(vec3_to_index(IVec3::new(-1, 1, 0), 32), 31);
}

#[test]
fn edges_of_the_cube() {
    assert!(is_on_edge(IVec3::new(0, 5, 5)));
    assert!(is_on_edge(IVec3::new(5, 32, 5)));
    assert!(!is_on_edge(IVec3::new(5, 31, 5)));
    assert!(!is_on_edge(IVec3::new(1, 1, 1)));
    assert_eq!(get_edging_chunk(IVec3::new(5, 5, 5)), None);
    assert_eq!(get_edging_chunk(IVec3::new(0, 5, 31)), Some(IVec3::new(-1, 0, 1)));
    assert_eq!(get_edging_chunk(IVec3::new(31, 0, 5)), Some(IVec3::new(1, -1, 0)));
    assert_eq!(get_edging_chunk(IVec3::new(32, 5, 5)), None);
}

#[test]
fn occlusion_vertex_word() {
    assert_eq!(
        make_vertex_u32(IVec3::new(1, 2, 3), 2, 5, 7),
        1 | (2 << 6) | (3 << 12) | (2 << 18) | (5 << 21) | (7 << 25)
    );
    assert_eq!(make_vertex_u32(IVec3::new(1, 2, 3), 2, 5, 7), 245903489);
}

#[test]
fn slice_and_column_indices() {
    assert_eq!(local_xyz_to_index(1, 2, 3), 801);
    assert_eq!(local_xyz_to_index(15, 15, 15), 4095);
    assert_eq!(local_xz_to_index(3, 2), 35);
    assert_eq!(local_xz_to_index_dynamic(2, 3, 10), 23);
}

#[test]
fn chunk_keys_pair_the_folded_coordinates() {
    assert_eq!(xz_to_index(0, 0), 0);
    assert_eq!(xz_to_index(-1, 0), 1);
    assert_eq!(xz_to_index(0, -1), 2);
    assert_eq!(xz_to_index(1, 0), 3);
    assert_eq!(xz_to_index(-1, -1), 4);
    assert_eq!(xz_to_index(0, 1), 5);
    assert_eq!(xz_to_index(5, -3), 125);
}

#[test]
fn chunk_keys_are_distinct_near_the_origin() {
    let mut seen = std::collections::HashSet::new();
    for x in -40..40 {
        for z in -40..40 {
            assert!(seen.insert(xz_to_index(x, z)));
        }
    }
}

#[test]
fn chunk_keys_far_out_are_held_at_the_largest_key() {
    assert_eq!(xz_to_index(100000, 100000), u32::MAX);
    assert_eq!(xz_to_index(i32::MIN, i32::MIN), u32::MAX);
    assert_eq!(xz_to_index(i32::MAX, i32::MAX), u32::MAX);
    assert!(xz_to_index(20000, 20000) < u32::MAX);
}

#[test]
fn division_by_the_chunk_edge_rounds_down() {
    assert_eq!(div16(0), 0);
    assert_eq!(div16(15), 0);
    assert_eq!(div16(16), 1);
    assert_eq!(div16(-1), -1);
    assert_eq!(div16(-16), -1);
    assert_eq!(div16(-17), -2);
    assert_eq!(rem16(-1), 15);
    assert_eq!(rem16(-16), 0);
    assert_eq!(rem16(35), 3);
    assert_eq!(div16(i32::MIN), -134217728);
    assert_eq!(rem16(i32::MIN), 0);
}

#[test]
fn fresh_blocks_are_unlit_and_know_where_they_are() {
    let b = create_block_default(Blocks::GRASS, Vector3::new(-1, 37, 16));
    assert_eq!(b.get_block(), Blocks::GRASS);
    assert_eq!(b.get_absolute_position(), Vector3::new(-1, 37, 16));
    assert_eq!(b.get_relative_position().x, 15);
    assert_eq!(b.get_relative_position().y, 5);
    assert_eq!(b.get_relative_position().z, 0);
    assert_eq!(b.get_sunlight_intensity(), 0);
    assert_eq!(*b.get_light(), [0, 0, 0]);
    assert!(b.is_wf());
    assert!(b.emissive_color().is_none());
}

#[test]
fn kinds_and_their_traits() {
    let at = Vector3::new(0, 0, 0);
    let expected = [
        (Blocks::AIR, true, false, "dirt block"),
        (Blocks::DIRT, false, true, "dirt block"),
        (Blocks::GRASS, false, true, "grass block"),
        (Blocks::STONE, false, true, "stone block"),
        (Blocks::LOG, false, true, "log block"),
        (Blocks::LEAF, true, true, "leaf block"),
    ];
    for (n, (kind, transparent, meshes, name)) in expected.iter().enumerate() {
        let b = create_block_default(*kind, at);
        assert_eq!(b.has_partial_transparency(), *transparent);
        assert_eq!(b.does_mesh(), *meshes);
        assert!(!b.is_fluid());
        assert_eq!(b.get_name(), *name);
        assert_eq!(kind.index(), n as u32);
    }
}

#[test]
fn surface_textures_by_kind_and_face() {
    let t = BlockTextures { dirt: 1, grass_top: 2, grass_side: 3, stone: 4, log_top: 5, log: 6, leaf: 7 };
    let at = Vector3::new(0, 0, 0);
    let grass = create_block_default(Blocks::GRASS, at);
    assert_eq!(grass.get_surface_textures(BlockFace::Top, &t), (2, 0, 0));
    assert_eq!(grass.get_surface_textures(BlockFace::Bottom, &t), (1, 0, 0));
    assert_eq!(grass.get_surface_textures(BlockFace::Left, &t), (3, 0, 0));
    let log = create_block_default(Blocks::LOG, at);
    assert_eq!(log.get_surface_textures(BlockFace::Top, &t), (5, 0, 0));
    assert_eq!(log.get_surface_textures(BlockFace::Bottom, &t), (5, 0, 0));
    assert_eq!(log.get_surface_textures(BlockFace::Front, &t), (6, 0, 0));
    assert_eq!(create_block_default(Blocks::AIR, at).get_surface_textures(BlockFace::Top, &t), (0, 0, 0));
    assert_eq!(create_block_default(Blocks::DIRT, at).get_surface_textures(BlockFace::Back, &t), (1, 0, 0));
    assert_eq!(create_block_default(Blocks::STONE, at).get_surface_textures(BlockFace::Right, &t), (4, 0, 0));
    assert_eq!(create_block_default(Blocks::LEAF, at).get_surface_textures(BlockFace::Left, &t), (7, 0, 0));
}

#[test]
fn faces_and_their_numbers() {
    let faces = [
        (BlockFace::Top, 0, 3, Vector3::new(0, 1, 0), true),
        (BlockFace::Bottom, 1, 2, Vector3::new(0, -1, 0), false),
        (BlockFace::Right, 2, 1, Vector3::new(1, 0, 0), true),
        (BlockFace::Left, 3, 0, Vector3::new(-1, 0, 0), false),
        (BlockFace::Front, 4, 4, Vector3::new(0, 0, -1), true),
        (BlockFace::Back, 5, 5, Vector3::new(0, 0, 1), false),
    ];
    for (face, index, normal_index, normal, reversed) in faces {
        assert_eq!(face.index(), index);
        assert_eq!(face.normal_index(), normal_index);
        assert_eq!(face.normal(), normal);
        assert_eq!(face.reverse_order(), reversed);
        assert_eq!(BlockFace::from_index(index as usize), Some(face));
    }
    assert_eq!(BlockFace::from_index(6), None);
}

#[test]
fn face_corners_in_the_slice() {
    assert_eq!(BlockFace::Top.world_to_sample(4, 1, 2), [1, 5, 2]);
    assert_eq!(BlockFace::Bottom.world_to_sample(4, 1, 2), [1, 4, 2]);
    assert_eq!(BlockFace::Left.world_to_sample(4, 1, 2), [4, 2, 1]);
    assert_eq!(BlockFace::Right.world_to_sample(4, 1, 2), [5, 2, 1]);
    assert_eq!(BlockFace::Front.world_to_sample(4, 1, 2), [1, 2, 4]);
    assert_eq!(BlockFace::Back.world_to_sample(4, 1, 2), [1, 2, 5]);
}
