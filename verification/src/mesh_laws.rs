use vstd::prelude::*;
use vstd::std_specs::bits::axiom_u32_trailing_zeros;
use crate::binarymesher::{
    FaceKey,
    MeshStageType,
    MeshTarget,
    MeshView,
    bit,
    face_key,
    face_neighbor,
    face_voxel,
    greedy_quads,
    keyed_faces,
    mesh_layers,
    peel,
    selection,
};
use crate::greedy_laws::{covers, lemma_quads_cover_faces};
use crate::halo::{
    Sample,
    bits_of,
    column_bits,
    column_filled,
    layer_faces,
    layer_plane,
    lemma_bits_of_bit,
    occupied,
};

verus! {

/// Faces that are merged into one quad carry the key for which the quad
/// was made: they belong to blocks of one kind, and the blocks beyond
/// them hold the same light.
pub proof fn lemma_merged_faces_share_key(
    halo: Seq<Sample>,
    plane: Seq<u32>,
    f: int,
    l: int,
    key: FaceKey,
    k: int,
    r: int,
    c: int,
)
    requires
        0 <= k < greedy_quads(selection(halo, plane, f, l, key)).len(),
        covers(greedy_quads(selection(halo, plane, f, l, key))[k], r, c),
    ensures
        0 <= r < 16,
        0 <= c < 16,
        bit(plane[r], c),
        face_key(halo, f, l, r, c) == key,
{
    let sel = selection(halo, plane, f, l, key);
    lemma_quads_cover_faces(sel, k, r, c);
    lemma_bits_of_bit(keyed_faces(halo, plane, f, l, r, key), 16, c);
}

/// Two faces whose neighbours hold different light never share a quad,
/// even where their blocks are of one kind; nor do faces of different kinds.
pub proof fn lemma_quads_keep_light_apart(
    halo: Seq<Sample>,
    plane: Seq<u32>,
    f: int,
    l: int,
    key: FaceKey,
    k: int,
    r1: int,
    c1: int,
    r2: int,
    c2: int,
)
    requires
        0 <= k < greedy_quads(selection(halo, plane, f, l, key)).len(),
        covers(greedy_quads(selection(halo, plane, f, l, key))[k], r1, c1),
        covers(greedy_quads(selection(halo, plane, f, l, key))[k], r2, c2),
    ensures
        face_key(halo, f, l, r1, c1).illumination == face_key(halo, f, l, r2, c2).illumination,
        face_key(halo, f, l, r1, c1).kind == face_key(halo, f, l, r2, c2).kind,
{
    lemma_merged_faces_share_key(halo, plane, f, l, key, k, r1, c1);
    lemma_merged_faces_share_key(halo, plane, f, l, key, k, r2, c2);
}

/// A face is there exactly where a block that is filled for the pass
/// meets, along the direction of the face, one that is not.
pub proof fn lemma_face_where_filled_meets_empty(
    halo: Seq<Sample>,
    stage: MeshStageType,
    f: int,
    l: int,
    r: int,
    c: int,
)
    requires
        0 <= f < 6,
        0 <= l < 16,
        0 <= r < 16,
        0 <= c < 16,
    ensures
        bit(layer_plane(halo, stage, f, l)[r], c) == (occupied(stage, halo[face_voxel(f, l, r, c)])
            && !occupied(stage, halo[face_neighbor(f, l, r, c)])),
{
    lemma_bits_of_bit(layer_faces(halo, stage, f, l, r), 16, c);
    let col = column_bits(halo, stage, f / 2, c + 1, r + 1);
    let filled = column_filled(halo, stage, f / 2, c + 1, r + 1);
    let at = (l + 1) as u32;
    lemma_bits_of_bit(filled, 18, l + 1);
    lemma_bits_of_bit(filled, 18, l);
    lemma_bits_of_bit(filled, 18, l + 2);
    let below = l as u32;
    let above = (l + 2) as u32;
    if f % 2 == 0 {
        assert(((col & !(col << 1)) >> at) & 1 == 1 <==> ((col >> at) & 1 == 1 && (col >> below)
            & 1 != 1)) by (bit_vector)
            requires
                at == below + 1,
                at < 32,
        ;
    } else {
        assert(((col & !(col >> 1)) >> at) & 1 == 1 <==> ((col >> at) & 1 == 1 && (col >> above)
            & 1 != 1)) by (bit_vector)
            requires
                above == at + 1,
                above < 32,
        ;
    }
}

/// In the transparent pass a block shows its face towards every
/// neighbour of another kind.
pub proof fn lemma_transparent_faces_between_kinds(
    halo: Seq<Sample>,
    f: int,
    l: int,
    r: int,
    c: int,
)
    requires
        0 <= f < 6,
        0 <= l < 16,
        0 <= r < 16,
        0 <= c < 16,
        occupied(MeshStageType::Transparent, halo[face_voxel(f, l, r, c)]),
        halo[face_neighbor(f, l, r, c)].kind != halo[face_voxel(f, l, r, c)].kind,
    ensures
        bit(layer_plane(halo, MeshStageType::Transparent, f, l)[r], c),
{
    lemma_face_where_filled_meets_empty(halo, MeshStageType::Transparent, f, l, r, c);
}

/// The word built from a predicate that holds nowhere is zero.
pub proof fn lemma_bits_of_none(f: spec_fn(int) -> bool, n: int)
    requires
        forall|i: int| 0 <= i < n ==> !#[trigger] f(i),
    ensures
        bits_of(f, n) == 0,
    decreases n,
{
    if n > 0 {
        lemma_bits_of_none(f, n - 1);
        assert(0u32 | 0u32 == 0u32) by (bit_vector);
    }
}

/// A plane without faces yields no geometry.
pub proof fn lemma_peel_nothing(halo: Seq<Sample>, t: MeshTarget, plane: Seq<u32>, f: int, l: int, r: int)
    requires
        0 <= r,
        forall|i: int| 0 <= i < 16 ==> #[trigger] plane[i] == 0,
    ensures
        peel(halo, t, plane, f, l, r) == MeshView::empty(),
    decreases 16 - r,
{
    if r < 16 {
        axiom_u32_trailing_zeros(0u32);
        assert(plane[r] == 0);
        lemma_peel_nothing(halo, t, plane, f, l, r + 1);
    }
}

/// Whether none of the blocks of the sampled slice itself is filled for the pass.
pub open spec fn slice_empty(halo: Seq<Sample>, stage: MeshStageType) -> bool {
    forall|px: int, py: int, pz: int|
        1 <= px <= 16 && 1 <= py <= 16 && 1 <= pz <= 16 ==> !occupied(
            stage,
            #[trigger] halo[crate::halo::halo_index(px, py, pz)],
        )
}

/// A slice that holds no block of a pass yields an empty mesh for that
/// pass, whatever surrounds it.
pub proof fn lemma_empty_slice_empty_mesh(halo: Seq<Sample>, stage: MeshStageType, t: MeshTarget, n: int)
    requires
        slice_empty(halo, stage),
        0 <= n,
    ensures
        mesh_layers(halo, stage, t, n) == MeshView::empty(),
    decreases 96 - n,
{
    if n < 96 {
        let f = n / 16;
        let l = n % 16;
        let plane = layer_plane(halo, stage, f, l);
        assert forall|r: int| 0 <= r < 16 implies #[trigger] plane[r] == 0 by {
            let faces = layer_faces(halo, stage, f, l, r);
            assert forall|c: int| 0 <= c < 16 implies !#[trigger] faces(c) by {
                lemma_face_where_filled_meets_empty(halo, stage, f, l, r, c);
                lemma_bits_of_bit(faces, 16, c);
                let a = f / 2;
                if a == 0 {
                    assert(face_voxel(f, l, r, c) == crate::halo::halo_index(r + 1, l + 1, c + 1));
                } else if a == 1 {
                    assert(face_voxel(f, l, r, c) == crate::halo::halo_index(l + 1, c + 1, r + 1));
                } else {
                    assert(face_voxel(f, l, r, c) == crate::halo::halo_index(r + 1, c + 1, l + 1));
                }
            }
            lemma_bits_of_none(faces, 16);
        }
        lemma_peel_nothing(halo, t, plane, f, l, 0);
        lemma_empty_slice_empty_mesh(halo, stage, t, n + 1);
        assert(MeshView::empty().join(MeshView::empty()).vertices =~= Seq::empty());
        assert(MeshView::empty().join(MeshView::empty()).quads =~= Seq::empty());
    }
}

} // verus!
