use vstd::prelude::*;
use vstd::std_specs::bits::{u32_trailing_zeros, axiom_u32_trailing_zeros};
use std::sync::Arc;
use crate::binarymesher::{
    MeshStageType,
    bit,
    face_block,
    face_direction,
    face_of,
    face_voxel,
    greedy_mesh_plane,
    greedy_quads,
    quad_indices,
};
use crate::blocks::{BlockFace, Blocks};
use crate::chunk::Chunk;
use crate::halo::{
    Sample,
    bits_of,
    build_columns,
    build_layer,
    build_masks,
    column_cell_index,
    halo_index,
    halo_of,
    is_occupied,
    layer_plane,
    lemma_bits_of_bit,
    lemma_halo_index,
    masks_built,
    occupied,
    sample_halo,
    HALO_CELLS,
};
use crate::world::ChunkMap;

verus! {

/// An integer vector with three components.
#[derive(Clone, Copy, Debug, PartialEq, Eq, Structural, Hash)]
pub struct IVec3 {
    pub x: i32,
    pub y: i32,
    pub z: i32,
}

impl IVec3 {
    pub fn new(x: i32, y: i32, z: i32) -> (v: IVec3)
        ensures
            v == (IVec3 { x, y, z }),
    {
        IVec3 { x, y, z }
    }
}

/// Division that rounds towards zero, for a positive divisor.
pub open spec fn quotient(a: int, b: int) -> int {
    if a >= 0 {
        a / b
    } else {
        -((-a) / b)
    }
}

/// The remainder of the division that rounds towards zero: it has the
/// sign of the dividend.
pub open spec fn remainder(a: int, b: int) -> int {
    if a >= 0 {
        a % b
    } else {
        -((-a) % b)
    }
}

/// The position with the given place in a cube of edge `bounds`, x running
/// fastest.
pub open spec fn position_of_index(i: int, bounds: int) -> IVec3 {
    IVec3 {
        x: remainder(i, bounds) as i32,
        y: remainder(quotient(i, bounds), bounds) as i32,
        z: quotient(i, bounds * bounds) as i32,
    }
}

/// The place of a position in a cube of edge `bounds`, x running fastest.
pub open spec fn index_of_position(pos: IVec3, bounds: int) -> int {
    remainder(pos.x as int, bounds) + pos.y * bounds + pos.z * (bounds * bounds)
}

fn divide(a: i32, b: i32) -> (r: i32)
    requires
        b > 0,
    ensures
        r == quotient(a as int, b as int),
        a >= 0 ==> 0 <= r <= a,
        a < 0 ==> a <= r <= 0,
{
    proof {
        if a >= 0 {
            vstd::arithmetic::div_mod::lemma_div_pos_is_pos(a as int, b as int);
            vstd::arithmetic::div_mod::lemma_div_is_ordered_by_denominator(a as int, 1, b as int);
            vstd::arithmetic::div_mod::lemma_div_basics(a as int);
        } else {
            vstd::arithmetic::div_mod::lemma_div_pos_is_pos(-(a as int), b as int);
            vstd::arithmetic::div_mod::lemma_div_is_ordered_by_denominator(-(a as int), 1, b as int);
            vstd::arithmetic::div_mod::lemma_div_basics(-(a as int));
        }
        assert(a as int * -1 == -(a as int));
    }
    match a.checked_div(b) {
        Some(q) => q,
        None => 0,
    }
}

fn modulo(a: i32, b: i32) -> (r: i32)
    requires
        b > 0,
    ensures
        r == remainder(a as int, b as int),
        -b < r < b,
{
    proof {
        let x = a as int;
        let d = b as int;
        assert(x * -1 == -x);
        if a >= 0 {
            vstd::arithmetic::div_mod::lemma_mod_bound(x, d);
            vstd::arithmetic::div_mod::lemma_small_mod(0, d as nat);
        } else {
            vstd::arithmetic::div_mod::lemma_mod_bound(-x, d);
            assert(((x * -1) % d) * -1 == -((-x) % d));
        }
    }
    match a.checked_rem(b) {
        Some(m) => m,
        None => 0,
    }
}

/// The position with the given place in a cube of edge 32.
pub fn index_to_ivec3(i: i32) -> (r: IVec3)
    ensures
        r == position_of_index(i as int, 32),
{
    let x = modulo(i, 32);
    let y = modulo(divide(i, 32), 32);
    let z = divide(i, 32 * 32);
    IVec3::new(x, y, z)
}

/// The position with the given place in a cube of edge `bounds`.
pub fn index_to_ivec3_bounds(i: i32, bounds: i32) -> (r: IVec3)
    requires
        0 < bounds,
        bounds * bounds <= i32::MAX,
    ensures
        r == position_of_index(i as int, bounds as int),
{
    assert(0 < bounds * bounds) by (nonlinear_arith)
        requires
            0 < bounds,
    ;
    let x = modulo(i, bounds);
    let y = modulo(divide(i, bounds), bounds);
    let z = divide(i, bounds * bounds);
    IVec3::new(x, y, z)
}

/// The position with the given place in a cube of edge `bounds` in which z
/// runs fastest.
pub fn index_to_ivec3_bounds_reverse(i: i32, bounds: i32) -> (r: IVec3)
    requires
        0 < bounds,
        bounds * bounds <= i32::MAX,
    ensures
        r.z == position_of_index(i as int, bounds as int).x,
        r.y == position_of_index(i as int, bounds as int).y,
        r.x == position_of_index(i as int, bounds as int).z,
{
    assert(0 < bounds * bounds) by (nonlinear_arith)
        requires
            0 < bounds,
    ;
    let z = modulo(i, bounds);
    let y = modulo(divide(i, bounds), bounds);
    let x = divide(i, bounds * bounds);
    IVec3::new(x, y, z)
}

/// The place of a position in a cube of edge `bounds`.
pub fn vec3_to_index(pos: IVec3, bounds: i32) -> (r: usize)
    requires
        0 < bounds,
        bounds * bounds <= i32::MAX,
        i32::MIN <= pos.y * bounds <= i32::MAX,
        i32::MIN <= pos.z * (bounds * bounds) <= i32::MAX,
        i32::MIN <= remainder(pos.x as int, bounds as int) + pos.y * bounds <= i32::MAX,
        0 <= index_of_position(pos, bounds as int) <= i32::MAX,
    ensures
        r == index_of_position(pos, bounds as int),
{
    let x_i = modulo(pos.x, bounds);
    let y_i = pos.y * bounds;
    let z_i = pos.z * (bounds * bounds);
    (x_i + y_i + z_i) as usize
}

/// Inside a cube of edge `bounds` the place of a position names the
/// position again.
pub proof fn lemma_index_round_trip(pos: IVec3, bounds: int)
    requires
        0 < bounds,
        0 <= pos.x < bounds,
        0 <= pos.y < bounds,
        0 <= pos.z,
        pos.z * (bounds * bounds) + pos.y * bounds + pos.x <= i32::MAX,
    ensures
        position_of_index(index_of_position(pos, bounds), bounds) == pos,
{
    let i = index_of_position(pos, bounds);
    vstd::arithmetic::div_mod::lemma_small_mod(pos.x as nat, bounds as nat);
    assert(i == (pos.z * bounds + pos.y) * bounds + pos.x) by (nonlinear_arith)
        requires
            i == pos.x as int + pos.y * bounds + pos.z * (bounds * bounds),
    ;
    assert(0 <= pos.z * bounds) by (nonlinear_arith)
        requires
            0 <= pos.z,
            0 < bounds,
    ;
    assert(0 <= (pos.z * bounds + pos.y) * bounds) by (nonlinear_arith)
        requires
            0 <= pos.z * bounds + pos.y,
            0 < bounds,
    ;
    vstd::arithmetic::div_mod::lemma_fundamental_div_mod_converse(
        i,
        bounds,
        pos.z * bounds + pos.y,
        pos.x as int,
    );
    vstd::arithmetic::div_mod::lemma_fundamental_div_mod_converse(
        pos.z * bounds + pos.y,
        bounds,
        pos.z as int,
        pos.y as int,
    );
    assert(0 <= pos.y * bounds + pos.x < bounds * bounds) by (nonlinear_arith)
        requires
            0 <= pos.y < bounds,
            0 <= pos.x < bounds,
    ;
    assert(i == (bounds * bounds) * pos.z + (pos.y * bounds + pos.x)) by (nonlinear_arith)
        requires
            i == pos.x as int + pos.y * bounds + pos.z * (bounds * bounds),
    ;
    vstd::arithmetic::div_mod::lemma_fundamental_div_mod_converse(
        i,
        bounds * bounds,
        pos.z as int,
        pos.y * bounds + pos.x,
    );
}

/// Whether a position lies on a face of the cube `0..=32`.
pub fn is_on_edge(pos: IVec3) -> (r: bool)
    ensures
        r == (pos.x == 0 || pos.x == 32 || pos.y == 0 || pos.y == 32 || pos.z == 0 || pos.z == 32),
{
    if pos.x == 0 || pos.x == 32 {
        return true;
    }
    if pos.y == 0 || pos.y == 32 {
        return true;
    }
    if pos.z == 0 || pos.z == 32 {
        return true;
    }
    false
}

/// The step towards the neighbour along one axis for a coordinate of the
/// cube `0..32`: back at 0, forth at 31, none in between.
pub open spec fn edge_step(a: int) -> int {
    if a == 0 {
        -1
    } else if a == 31 {
        1
    } else {
        0
    }
}

/// The direction of the neighbouring chunk that a position on the rim of
/// the cube `0..32` touches; none inside the cube.
pub fn get_edging_chunk(pos: IVec3) -> (r: Option<IVec3>)
    ensures
        r == if edge_step(pos.x as int) == 0 && edge_step(pos.y as int) == 0 && edge_step(
            pos.z as int,
        ) == 0 {
            None
        } else {
            Some(
                IVec3 {
                    x: edge_step(pos.x as int) as i32,
                    y: edge_step(pos.y as int) as i32,
                    z: edge_step(pos.z as int) as i32,
                },
            )
        },
{
    let mut chunk_dir = IVec3::new(0, 0, 0);
    if pos.x == 0 {
        chunk_dir.x = -1;
    } else if pos.x == 31 {
        chunk_dir.x = 1;
    }
    if pos.y == 0 {
        chunk_dir.y = -1;
    } else if pos.y == 31 {
        chunk_dir.y = 1;
    }
    if pos.z == 0 {
        chunk_dir.z = -1;
    } else if pos.z == 31 {
        chunk_dir.z = 1;
    }
    if chunk_dir.x == 0 && chunk_dir.y == 0 && chunk_dir.z == 0 {
        None
    } else {
        Some(chunk_dir)
    }
}

/// The word of a vertex with ambient occlusion: position in bits 0-17 (six
/// bits a component), occlusion in 18-20, normal in 21-24, block type
/// from bit 25. Negative coordinates enter as unsigned words.
pub open spec fn pack_vertex_u32(x: u32, y: u32, z: u32, ao: u32, normal: u32, block_type: u32) -> u32 {
    x | (y << 6) | (z << 12) | (ao << 18) | (normal << 21) | (block_type << 25)
}

/// Packs a vertex with ambient occlusion into its word.
pub fn make_vertex_u32(pos: IVec3, ao: u32, normal: u32, block_type: u32) -> (r: u32)
    ensures
        r == pack_vertex_u32(pos.x as u32, pos.y as u32, pos.z as u32, ao, normal, block_type),
{
    let x = #[verifier::truncate]
    (pos.x as u32);
    let y = #[verifier::truncate]
    (pos.y as u32);
    let z = #[verifier::truncate]
    (pos.z as u32);
    x | y << 6u32 | z << 12u32 | ao << 18u32 | normal << 21u32 | block_type << 25u32
}

/// Builds the index list for `vertex_count` vertices that come in quads.
pub fn generate_indices(vertex_count: usize) -> (indices: Vec<u32>)
    requires
        vertex_count <= u32::MAX,
    ensures
        indices@ == quad_indices((vertex_count / 4) as nat),
        indices@.len() == 6 * (vertex_count / 4),
{
    crate::binarymesher::generate_indices(vertex_count)
}

/// A rectangle of merged faces in a plane of 32 rows.
#[derive(Clone, Copy, Debug, PartialEq, Eq, Structural)]
pub struct GreedyQuad {
    pub x: u32,
    pub y: u32,
    pub w: u32,
    pub h: u32,
}

/// Bit `i` of an occlusion word as a number.
pub open spec fn ao_bit(ao: u32, i: u32) -> u32 {
    (ao >> i) & 1
}

/// The occlusion of the four corners of a face from the nine samples
/// around it: each corner counts its two edges and its diagonal.
pub open spec fn corner_occlusion(ao: u32) -> (u32, u32, u32, u32) {
    (
        (ao_bit(ao, 0) + ao_bit(ao, 1) + ao_bit(ao, 3)) as u32,
        (ao_bit(ao, 3) + ao_bit(ao, 6) + ao_bit(ao, 7)) as u32,
        (ao_bit(ao, 5) + ao_bit(ao, 8) + ao_bit(ao, 7)) as u32,
        (ao_bit(ao, 1) + ao_bit(ao, 2) + ao_bit(ao, 5)) as u32,
    )
}

/// The word of the corner `(x, y)` of a face in layer `axis`.
pub open spec fn corner_word(
    face: BlockFace,
    axis: int,
    x: int,
    y: int,
    ao: u32,
    block_type: u32,
) -> u32 {
    let p = face.world_to_sample_spec(axis as i32, x as i32, y as i32);
    pack_vertex_u32(p[0], p[1], p[2], ao, face.normal_index_spec(), block_type)
}

/// The four words of a quad in the order in which they are emitted. Faces
/// that are wound backwards keep the first corner and reverse the others;
/// where exactly one of the first and third corner is occluded, the order
/// is then rotated by one, so that the triangles split along the other
/// diagonal.
pub open spec fn quad_words(q: GreedyQuad, face: BlockFace, axis: int, ao: u32, block_type: u32) -> Seq<
    u32,
> {
    let occ = corner_occlusion(ao);
    let v1 = corner_word(face, axis, q.x as int, q.y as int, occ.0, block_type);
    let v2 = corner_word(face, axis, q.x + q.w, q.y as int, occ.1, block_type);
    let v3 = corner_word(face, axis, q.x + q.w, q.y + q.h, occ.2, block_type);
    let v4 = corner_word(face, axis, q.x as int, q.y + q.h, occ.3, block_type);
    let ordered = if face.reverse_order_spec() {
        seq![v1, v4, v3, v2]
    } else {
        seq![v1, v2, v3, v4]
    };
    if (occ.0 > 0) != (occ.2 > 0) {
        seq![ordered[1], ordered[2], ordered[3], ordered[0]]
    } else {
        ordered
    }
}

impl GreedyQuad {
    /// Emits the quad as four packed words.
    pub fn append_vertices(
        &self,
        vertices: &mut Vec<u32>,
        face_dir: BlockFace,
        axis: u32,
        ao: u32,
        block_type: u32,
    )
        requires
            self.x + self.w < i32::MAX,
            self.y + self.h < i32::MAX,
            axis < i32::MAX,
        ensures
            final(vertices)@ == old(vertices)@ + quad_words(
                *self,
                face_dir,
                axis as int,
                ao,
                block_type,
            ),
    {
        let axis = axis as i32;
        let b0: u32 = (ao >> 0) & 1;
        let b1: u32 = (ao >> 1) & 1;
        let b2: u32 = (ao >> 2) & 1;
        let b3: u32 = (ao >> 3) & 1;
        let b5: u32 = (ao >> 5) & 1;
        let b6: u32 = (ao >> 6) & 1;
        let b7: u32 = (ao >> 7) & 1;
        let b8: u32 = (ao >> 8) & 1;
        assert(b0 <= 1 && b1 <= 1 && b2 <= 1 && b3 <= 1 && b5 <= 1 && b6 <= 1 && b7 <= 1 && b8 <= 1)
            by (bit_vector)
            requires
                b0 == (ao >> 0) & 1,
                b1 == (ao >> 1) & 1,
                b2 == (ao >> 2) & 1,
                b3 == (ao >> 3) & 1,
                b5 == (ao >> 5) & 1,
                b6 == (ao >> 6) & 1,
                b7 == (ao >> 7) & 1,
                b8 == (ao >> 8) & 1,
        ;
        let v1ao = b0 + b1 + b3;
        let v2ao = b3 + b6 + b7;
        let v3ao = b5 + b8 + b7;
        let v4ao = b1 + b2 + b5;
        let x0 = self.x as i32;
        let y0 = self.y as i32;
        let x1 = self.x as i32 + self.w as i32;
        let y1 = self.y as i32 + self.h as i32;
        let normal = face_dir.normal_index();
        let pa = face_dir.world_to_sample(axis, x0, y0);
        let pb = face_dir.world_to_sample(axis, x1, y0);
        let pc = face_dir.world_to_sample(axis, x1, y1);
        let pd = face_dir.world_to_sample(axis, x0, y1);
        let v1 = pa[0] | pa[1] << 6u32 | pa[2] << 12u32 | v1ao << 18u32 | normal << 21u32
            | block_type << 25u32;
        let v2 = pb[0] | pb[1] << 6u32 | pb[2] << 12u32 | v2ao << 18u32 | normal << 21u32
            | block_type << 25u32;
        let v3 = pc[0] | pc[1] << 6u32 | pc[2] << 12u32 | v3ao << 18u32 | normal << 21u32
            | block_type << 25u32;
        let v4 = pd[0] | pd[1] << 6u32 | pd[2] << 12u32 | v4ao << 18u32 | normal << 21u32
            | block_type << 25u32;
        let (a, b, c, d) = if face_dir.reverse_order() {
            (v1, v4, v3, v2)
        } else {
            (v1, v2, v3, v4)
        };
        if (v1ao > 0) != (v3ao > 0) {
            vertices.push(b);
            vertices.push(c);
            vertices.push(d);
            vertices.push(a);
        } else {
            vertices.push(a);
            vertices.push(b);
            vertices.push(c);
            vertices.push(d);
        }
        assert(vertices@ =~= old(vertices)@ + quad_words(
            *self,
            face_dir,
            axis as int,
            ao,
            block_type,
        ));
    }
}

/// Merges the set bits of a binary plane of 32 rows into rectangles; rows
/// merge sideways only inside the first sixteen rows.
pub fn greedy_mesh_binary_plane(data: [u32; 32]) -> (quads: Vec<GreedyQuad>)
    ensures
        quads@ == local_quads(greedy_quads(data@)),
        quads@.len() <= 512,
        forall|i: int|
            0 <= i < quads@.len() ==> (#[trigger] quads@[i]).x < 32 && quads@[i].w <= 16
                && quads@[i].y + quads@[i].h <= 32,
{
    let found = greedy_mesh_plane::<32>(data);
    let mut quads: Vec<GreedyQuad> = Vec::with_capacity(found.len());
    let mut i: usize = 0;
    while i < found.len()
        invariant
            i <= found@.len(),
            quads@.len() == i,
            forall|j: int| 0 <= j < found@.len() ==> (#[trigger] found@[j]).well_sized(32),
            forall|j: int| 0 <= j < i ==> #[trigger] quads@[j] == local_quad(found@[j]),
        decreases found@.len() - i,
    {
        let q = found[i];
        quads.push(GreedyQuad { x: q.x, y: q.y, w: q.w, h: q.h });
        i = i + 1;
    }
    assert(quads@ =~= local_quads(found@));
    assert forall|k: int| 0 <= k < quads@.len() implies (#[trigger] quads@[k]).x < 32
        && quads@[k].w <= 16 && quads@[k].y + quads@[k].h <= 32 by {
        assert(found@[k].well_sized(32));
    }
    quads
}

/// The key by which the faces of a layer merge where corners are shaded
/// by ambient occlusion: the kind of the block, and which of the nine
/// blocks around the face, in the layer beyond it, stop light.
#[derive(Clone, Copy, Debug, PartialEq, Eq, Structural)]
pub struct OcclusionKey {
    pub kind: Blocks,
    pub occlusion: u32,
}

/// The place in the sampled volume of sample `i` of the nine around a
/// face: the samples lie in the layer beyond the face, and `i` counts
/// them row by row from the corner.
pub open spec fn occlusion_cell(f: int, l: int, r: int, c: int, i: int) -> int {
    let ox = i / 3 - 1;
    let oy = i % 3 - 1;
    let v = face_block(f, l, r, c);
    if f == 0 {
        halo_index(v.0 + 1 + ox, v.1, v.2 + 1 + oy)
    } else if f == 1 {
        halo_index(v.0 + 1 + ox, v.1 + 2, v.2 + 1 + oy)
    } else if f == 2 {
        halo_index(v.0, v.1 + 1 + oy, v.2 + 1 + ox)
    } else if f == 3 {
        halo_index(v.0 + 2, v.1 + 1 + oy, v.2 + 1 + ox)
    } else if f == 4 {
        halo_index(v.0 + 1 + ox, v.1 + 1 + oy, v.2)
    } else {
        halo_index(v.0 + 1 + ox, v.1 + 1 + oy, v.2 + 2)
    }
}

fn occlusion_cell_index(f: usize, l: usize, r: usize, c: usize, i: usize) -> (cell: usize)
    requires
        f < 6,
        l < 16,
        r < 16,
        c < 16,
        i < 9,
    ensures
        cell == occlusion_cell(f as int, l as int, r as int, c as int, i as int),
        cell < HALO_CELLS,
{
    let ox = i / 3;
    let oy = i % 3;
    let (x, y, z) = if f / 2 == 0 {
        (r, l, c)
    } else if f / 2 == 1 {
        (l, c, r)
    } else {
        (r, c, l)
    };
    let (px, py, pz) = if f == 0 {
        (x + ox, y, z + oy)
    } else if f == 1 {
        (x + ox, y + 2, z + oy)
    } else if f == 2 {
        (x, y + oy, z + ox)
    } else if f == 3 {
        (x + 2, y + oy, z + ox)
    } else if f == 4 {
        (x + ox, y + oy, z)
    } else {
        (x + ox, y + oy, z + 2)
    };
    proof {
        lemma_halo_index(px as int, py as int, pz as int);
    }
    (pz * 18 + py) * 18 + px
}

/// Which of the nine samples around a face stop light.
pub open spec fn occluders(halo: Seq<Sample>, f: int, l: int, r: int, c: int) -> spec_fn(int) -> bool {
    |i: int| occupied(MeshStageType::Solid, halo[occlusion_cell(f, l, r, c, i)])
}

/// The key of the face at row `r`, cell `c` of layer `l` in direction `f`.
pub open spec fn occlusion_key(halo: Seq<Sample>, f: int, l: int, r: int, c: int) -> OcclusionKey {
    OcclusionKey {
        kind: halo[face_voxel(f, l, r, c)].kind,
        occlusion: bits_of(occluders(halo, f, l, r, c), 9),
    }
}

fn occlusion_key_at(halo: &Vec<Sample>, f: usize, l: usize, r: usize, c: usize) -> (key: OcclusionKey)
    requires
        halo@.len() == HALO_CELLS,
        f < 6,
        l < 16,
        r < 16,
        c < 16,
    ensures
        key == occlusion_key(halo@, f as int, l as int, r as int, c as int),
{
    let ghost around = occluders(halo@, f as int, l as int, r as int, c as int);
    let mut occlusion: u32 = 0;
    let mut i: usize = 0;
    while i < 9
        invariant
            i <= 9,
            f < 6,
            l < 16,
            r < 16,
            c < 16,
            halo@.len() == HALO_CELLS,
            around == occluders(halo@, f as int, l as int, r as int, c as int),
            occlusion == bits_of(around, i as int),
        decreases 9 - i,
    {
        let cell = occlusion_cell_index(f, l, r, c, i);
        if is_occupied(MeshStageType::Solid, &halo[cell]) {
            occlusion = occlusion | (1u32 << (i as u32));
        } else {
            assert(occlusion | 0u32 == occlusion) by (bit_vector);
        }
        i = i + 1;
    }
    let voxel = column_cell_index(f / 2, c + 1, r + 1, l + 1);
    OcclusionKey { kind: halo[voxel].kind, occlusion }
}

/// Which cells of row `r` of a plane show a face with the given key.
pub open spec fn occlusion_faces(
    halo: Seq<Sample>,
    plane: Seq<u32>,
    f: int,
    l: int,
    r: int,
    key: OcclusionKey,
) -> spec_fn(int) -> bool {
    |c: int| bit(plane[r], c) && occlusion_key(halo, f, l, r, c) == key
}

/// The faces of a plane that carry the given key, as a plane of 32 rows
/// of which the first sixteen are used.
pub open spec fn occlusion_selection(
    halo: Seq<Sample>,
    plane: Seq<u32>,
    f: int,
    l: int,
    key: OcclusionKey,
) -> Seq<u32> {
    Seq::new(
        32,
        |r: int|
            if r < 16 {
                bits_of(occlusion_faces(halo, plane, f, l, r, key), 16)
            } else {
                0u32
            },
    )
}

/// The plane without the faces of `sel`.
pub open spec fn plane_without(plane: Seq<u32>, sel: Seq<u32>) -> Seq<u32> {
    Seq::new(16, |r: int| plane[r] & !sel[r])
}

/// A quad of the plane mesher as a quad of this mesher.
pub open spec fn local_quad(q: crate::binarymesher::GreedyQuad) -> GreedyQuad {
    GreedyQuad { x: q.x, y: q.y, w: q.w, h: q.h }
}

/// A list of quads of the plane mesher as quads of this mesher.
pub open spec fn local_quads(quads: Seq<crate::binarymesher::GreedyQuad>) -> Seq<GreedyQuad> {
    Seq::new(quads.len(), |i: int| local_quad(quads[i]))
}

/// The words of a list of quads of one layer and key, in order.
pub open spec fn emit_words(quads: Seq<GreedyQuad>, f: int, l: int, key: OcclusionKey) -> Seq<u32>
    decreases quads.len(),
{
    if quads.len() == 0 {
        Seq::empty()
    } else {
        quad_words(quads[0], face_direction(f), l, key.occlusion, key.kind.index_spec()) + emit_words(
            quads.skip(1),
            f,
            l,
            key,
        )
    }
}

/// The words of the faces of a layer from row `r` on: the first face
/// that is left names a key; all faces of the layer with that key are
/// merged greedily and emitted and leave the plane; and so on.
pub open spec fn peel_words(halo: Seq<Sample>, plane: Seq<u32>, f: int, l: int, r: int) -> Seq<u32>
    decreases 16 - r, 32 - u32_trailing_zeros(plane[r]),
{
    if r < 0 || r >= 16 {
        Seq::empty()
    } else if u32_trailing_zeros(plane[r]) >= 16 {
        peel_words(halo, plane, f, l, r + 1)
    } else {
        let c = u32_trailing_zeros(plane[r]) as int;
        let key = occlusion_key(halo, f, l, r, c);
        let sel = occlusion_selection(halo, plane, f, l, key);
        proof {
            lemma_peel_words_progress(halo, plane, f, l, r);
        }
        emit_words(local_quads(greedy_quads(sel)), f, l, key) + peel_words(
            halo,
            plane_without(plane, sel),
            f,
            l,
            r,
        )
    }
}

/// Taking the faces with the key of the first face out of a row moves the
/// row's first face to a higher cell.
pub proof fn lemma_peel_words_progress(halo: Seq<Sample>, plane: Seq<u32>, f: int, l: int, r: int)
    requires
        0 <= r < 16,
        u32_trailing_zeros(plane[r]) < 16,
    ensures
        ({
            let c = u32_trailing_zeros(plane[r]) as int;
            let sel = occlusion_selection(halo, plane, f, l, occlusion_key(halo, f, l, r, c));
            u32_trailing_zeros(plane[r]) < u32_trailing_zeros(plane_without(plane, sel)[r]) <= 32
        }),
{
    let a = plane[r];
    let t = u32_trailing_zeros(a);
    let key = occlusion_key(halo, f, l, r, t as int);
    let sel = occlusion_selection(halo, plane, f, l, key);
    let s = sel[r];
    let b = a & !s;
    assert(plane_without(plane, sel)[r] == b);
    axiom_u32_trailing_zeros(a);
    axiom_u32_trailing_zeros(b);
    lemma_bits_of_bit(occlusion_faces(halo, plane, f, l, r, key), 16, t as int);
    assert(bit(a, t as int));
    assert(bit(s, t as int));
    let u = u32_trailing_zeros(b);
    if u < 32 {
        assert(((a & !s) >> u) & 1 == 1 ==> (a >> u) & 1 == 1 && (s >> u) & 1 == 0) by (bit_vector)
            requires
                u < 32,
        ;
        if u < t {
            assert((a >> u) & 1 == 0);
        }
    }
}

/// The words of the layers from number `n` on, where layer `n` is layer
/// `n % 16` of direction `n / 16`.
pub open spec fn occlusion_layers(halo: Seq<Sample>, n: int) -> Seq<u32>
    decreases 96 - n,
{
    if n < 0 || n >= 96 {
        Seq::empty()
    } else {
        peel_words(halo, layer_plane(halo, MeshStageType::Solid, n / 16, n % 16), n / 16, n % 16, 0)
            + occlusion_layers(halo, n + 1)
    }
}

/// The faces of a plane that carry `key`, as a plane of their own.
fn select_occlusion_faces(halo: &Vec<Sample>, plane: &[u32; 16], f: usize, l: usize, key: OcclusionKey) -> (sel:
    [u32; 32])
    requires
        halo@.len() == HALO_CELLS,
        f < 6,
        l < 16,
    ensures
        sel@ == occlusion_selection(halo@, plane@, f as int, l as int, key),
{
    let mut sel: [u32; 32] = [0u32;32];
    let mut r: usize = 0;
    while r < 16
        invariant
            r <= 16,
            f < 6,
            l < 16,
            halo@.len() == HALO_CELLS,
            forall|j: int|
                0 <= j < r ==> #[trigger] sel@[j] == bits_of(
                    occlusion_faces(halo@, plane@, f as int, l as int, j, key),
                    16,
                ),
            forall|j: int| r <= j < 32 ==> #[trigger] sel@[j] == 0,
        decreases 16 - r,
    {
        let ghost wanted = occlusion_faces(halo@, plane@, f as int, l as int, r as int, key);
        let mut row: u32 = 0;
        let mut c: usize = 0;
        while c < 16
            invariant
                c <= 16,
                r < 16,
                f < 6,
                l < 16,
                halo@.len() == HALO_CELLS,
                wanted == occlusion_faces(halo@, plane@, f as int, l as int, r as int, key),
                row == bits_of(wanted, c as int),
            decreases 16 - c,
        {
            let mut take = false;
            if (plane[r] >> (c as u32)) & 1 == 1 {
                let here = occlusion_key_at(halo, f, l, r, c);
                take = here == key;
            }
            if take {
                row = row | (1u32 << (c as u32));
            } else {
                assert(row | 0u32 == row) by (bit_vector);
            }
            c = c + 1;
        }
        sel[r] = row;
        r = r + 1;
    }
    assert(sel@ =~= occlusion_selection(halo@, plane@, f as int, l as int, key));
    sel
}

/// Emits the quads of one layer and key.
fn emit_layer_words(found: &Vec<GreedyQuad>, vertices: &mut Vec<u32>, f: usize, l: usize, key: OcclusionKey)
    requires
        f < 6,
        l < 16,
        forall|i: int|
            0 <= i < found@.len() ==> (#[trigger] found@[i]).x < 32 && found@[i].w <= 16
                && found@[i].y + found@[i].h <= 32,
    ensures
        final(vertices)@ == old(vertices)@ + emit_words(found@, f as int, l as int, key),
        final(vertices)@.len() == old(vertices)@.len() + 4 * found@.len(),
{
    let ghost target = emit_words(found@, f as int, l as int, key);
    let face = face_of(f);
    let block_type = key.kind.index();
    let mut i: usize = 0;
    assert(found@.skip(0) =~= found@);
    while i < found.len()
        invariant
            i <= found@.len(),
            f < 6,
            l < 16,
            face == face_direction(f as int),
            block_type == key.kind.index_spec(),
            forall|j: int|
                0 <= j < found@.len() ==> (#[trigger] found@[j]).x < 32 && found@[j].w <= 16
                    && found@[j].y + found@[j].h <= 32,
            vertices@ + emit_words(found@.skip(i as int), f as int, l as int, key) == old(vertices)@
                + target,
            vertices@.len() == old(vertices)@.len() + 4 * i,
        decreases found@.len() - i,
    {
        let q = found[i];
        let ghost before = vertices@;
        let ghost left = found@.skip(i as int);
        assert(left[0] == q);
        assert(left.skip(1) =~= found@.skip(i as int + 1));
        q.append_vertices(vertices, face, l as u32, key.occlusion, block_type);
        proof {
            let one = quad_words(q, face, l as int, key.occlusion, block_type);
            assert(one.len() == 4);
            let rest = emit_words(found@.skip(i as int + 1), f as int, l as int, key);
            assert(vertices@ + rest =~= before + (one + rest));
        }
        i = i + 1;
    }
    proof {
        let last = emit_words(found@.skip(found@.len() as int), f as int, l as int, key);
        assert(vertices@ =~= vertices@ + last);
    }
}

/// Meshes one layer of faces.
fn mesh_layer_words(halo: &Vec<Sample>, plane: [u32; 16], vertices: &mut Vec<u32>, f: usize, l: usize)
    requires
        halo@.len() == HALO_CELLS,
        f < 6,
        l < 16,
    ensures
        final(vertices)@ == old(vertices)@ + peel_words(halo@, plane@, f as int, l as int, 0),
        final(vertices)@.len() <= old(vertices)@.len() + 2048 * 528,
{
    let ghost target = peel_words(halo@, plane@, f as int, l as int, 0);
    let mut plane = plane;
    let mut r: usize = 0;
    proof {
        axiom_u32_trailing_zeros(plane@[0]);
    }
    while r < 16
        invariant
            r <= 16,
            halo@.len() == HALO_CELLS,
            f < 6,
            l < 16,
            vertices@ + peel_words(halo@, plane@, f as int, l as int, r as int) == old(vertices)@
                + target,
            r < 16 ==> u32_trailing_zeros(plane@[r as int]) <= 32,
            vertices@.len() + 2048 * (33 * (16 - r) - if r < 16 {
                u32_trailing_zeros(plane@[r as int]) as int
            } else {
                0int
            }) <= old(vertices)@.len() + 2048 * 528,
        decreases 16 - r, 32 - u32_trailing_zeros(plane@[r as int]),
    {
        let c = plane[r].trailing_zeros();
        if c >= 16 {
            r = r + 1;
            proof {
                if r < 16 {
                    axiom_u32_trailing_zeros(plane@[r as int]);
                }
            }
        } else {
            let ghost before = plane@;
            let key = occlusion_key_at(halo, f, l, r, c as usize);
            let sel = select_occlusion_faces(halo, &plane, f, l, key);
            let found = greedy_mesh_binary_plane(sel);
            let ghost vertices_before = vertices@;
            emit_layer_words(&found, vertices, f, l, key);
            let mut j: usize = 0;
            while j < 16
                invariant
                    j <= 16,
                    before.len() == 16,
                    forall|k: int| 0 <= k < j ==> #[trigger] plane@[k] == before[k] & !sel@[k],
                    forall|k: int| j <= k < 16 ==> #[trigger] plane@[k] == before[k],
                decreases 16 - j,
            {
                plane[j] = plane[j] & !sel[j];
                j = j + 1;
            }
            proof {
                assert(plane@ =~= plane_without(before, sel@));
                lemma_peel_words_progress(halo@, before, f as int, l as int, r as int);
                let here = emit_words(found@, f as int, l as int, key);
                let rest = peel_words(halo@, plane@, f as int, l as int, r as int);
                assert(peel_words(halo@, before, f as int, l as int, r as int) == here + rest);
                assert(vertices@ + rest =~= vertices_before + (here + rest));
            }
        }
    }
    proof {
        assert(vertices@ =~= vertices@ + peel_words(halo@, plane@, f as int, l as int, 16));
    }
}

/// Meshes slice `slice` of a chunk with ambient occlusion: only blocks
/// that stop light show faces, faces merge where kind and occlusion agree,
/// and every vertex is one word that carries the occlusion of its corner.
/// Hands back the vertices and their indices, and nothing where the
/// slice shows no face or does not exist.
pub fn build_chunk_mesh(chunk: &Arc<Chunk>, chunks: &ChunkMap, slice: u32) -> (mesh: Option<
    (Vec<u32>, Vec<u32>),
>)
    ensures
        match mesh {
            Some(m) => {
                &&& slice < 16
                &&& m.0@ == occlusion_layers(
                    halo_of(
                        chunks@,
                        chunk@.position.x as int,
                        chunk@.position.y as int,
                        slice as int,
                    ),
                    0,
                )
                &&& m.0@.len() > 0
                &&& m.1@ == quad_indices((m.0@.len() / 4) as nat)
            },
            None => slice >= 16 || occlusion_layers(
                halo_of(chunks@, chunk@.position.x as int, chunk@.position.y as int, slice as int),
                0,
            ).len() == 0,
        },
{
    if slice >= 16 {
        return None;
    }
    let position = chunk.position();
    let halo = sample_halo(chunks, position.x, position.y, slice);
    let cols = build_columns(&halo, MeshStageType::Solid);
    let masks = build_masks(&cols, Ghost(halo@), Ghost(MeshStageType::Solid));
    let ghost target = occlusion_layers(halo@, 0);
    let mut vertices: Vec<u32> = Vec::new();
    let mut n: usize = 0;
    while n < 96
        invariant
            n <= 96,
            halo@.len() == HALO_CELLS,
            masks_built(halo@, MeshStageType::Solid, masks@),
            vertices@ + occlusion_layers(halo@, n as int) == target,
            vertices@.len() <= n * 1081344,
        decreases 96 - n,
    {
        let f = n / 16;
        let l = n % 16;
        let plane = build_layer(&masks, f, l, Ghost(halo@), Ghost(MeshStageType::Solid));
        let ghost before = vertices@;
        mesh_layer_words(&halo, plane, &mut vertices, f, l);
        proof {
            let here = peel_words(halo@, plane@, f as int, l as int, 0);
            let rest = occlusion_layers(halo@, n as int + 1);
            assert(vertices@ + rest =~= before + (here + rest));
        }
        n = n + 1;
    }
    proof {
        assert(vertices@ =~= vertices@ + occlusion_layers(halo@, 96));
    }
    if vertices.len() == 0 {
        None
    } else {
        let indices = generate_indices(vertices.len());
        Some((vertices, indices))
    }
}

} // verus!
