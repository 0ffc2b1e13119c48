use vstd::prelude::*;
use vstd::std_specs::bits::{u32_trailing_zeros, u32_trailing_ones, axiom_u32_trailing_zeros};
use crate::blocks::{Block, Blocks, BlockFace, BlockTextures, surface_texture, calculate_illumination_bytes};
use crate::chunk::{ChunkView, Quad, CHUNK_COORD_LIMIT};
use crate::halo::{
    Sample,
    bits_of,
    lemma_bits_of_bit,
    column_cell,
    column_cell_index,
    halo_of,
    sample_at,
    sample_halo,
    build_columns,
    build_masks,
    build_layer,
    layer_plane,
    HALO_CELLS,
};
use crate::surfacevertex::{SurfaceVertex, pack_vertex};
use crate::vector::{Vector3, offset, offset_spec};
use crate::world::{ChunkMap, block_at, chunk_at};

verus! {

/// The pass for which a slice is meshed.
#[derive(Clone, Copy, Debug, PartialEq, Eq, Structural)]
pub enum MeshStageType {
    Solid,
    Transparent,
    Fluid,
}

/// A rectangle of merged faces in a binary plane: it starts at row `x`, bit
/// `y`, and spans `w` rows and `h` bits.
#[derive(Clone, Copy, Debug, PartialEq, Eq, Structural)]
pub struct GreedyQuad {
    pub x: u32,
    pub y: u32,
    pub w: u32,
    pub h: u32,
}

impl GreedyQuad {
    /// A quad of a plane of `rows` rows starts inside the plane and below
    /// bit 16, is at least one cell wide and high, at most 16 rows wide, and
    /// ends at or below bit 32.
    pub open spec fn well_sized(self, rows: int) -> bool {
        &&& self.x < rows
        &&& self.y < 16
        &&& 1 <= self.w <= 16
        &&& 1 <= self.h
        &&& self.y + self.h <= 32
    }
}

/// Rows merge sideways only inside the first sixteen rows of a plane.
pub const MERGE_ROWS: usize = 16;

/// Whether bit `i` of `row` is set.
pub open spec fn bit(row: u32, i: int) -> bool {
    0 <= i < 32 && (row >> (i as u32)) & 1 == 1
}

/// The position of the first set bit of `row` at or above `y`; at least 32
/// when there is none.
pub open spec fn next_set(row: u32, y: u32) -> u32 {
    (y + u32_trailing_zeros(row >> y)) as u32
}

/// The number of consecutive set bits of `row` from bit `y` upwards.
pub open spec fn run_length(row: u32, y: u32) -> u32 {
    u32_trailing_ones(row >> y)
}

/// The word whose lowest `h` bits are set.
pub open spec fn low_mask(h: u32) -> u32 {
    if h >= 32 {
        !0u32
    } else {
        ((1u32 << h) - 1) as u32
    }
}

/// How many rows from `row` on hold the whole run `hmask` at bit `y`, given
/// that the first `w` of them do: the run grows row by row until one lacks a
/// bit or the merge limit is reached.
pub open spec fn grow_width(data: Seq<u32>, row: int, y: u32, hmask: u32, w: int) -> int
    decreases MERGE_ROWS - (row + w),
{
    if 0 <= row && 1 <= w && row + w < MERGE_ROWS && row + w < data.len() && (data[row + w] >> y)
        & hmask == hmask {
        grow_width(data, row, y, hmask, w + 1)
    } else {
        w
    }
}

/// The plane with `mask` cleared in the `w - 1` rows that follow `row`.
pub open spec fn clear_rows(data: Seq<u32>, row: int, w: int, mask: u32) -> Seq<u32> {
    Seq::new(data.len(), |i: int| if row < i < row + w { data[i] & !mask } else { data[i] })
}

/// The quads that start in `row` at or above bit `y`, in rising order of
/// their start, and the plane that is left once the later rows they cover
/// have been cleared.
pub open spec fn mesh_row(data: Seq<u32>, row: int, y: u32) -> (Seq<GreedyQuad>, Seq<u32>)
    decreases 32 - y,
{
    if y >= 16 || !(0 <= row < data.len()) {
        (Seq::empty(), data)
    } else {
        let start = next_set(data[row], y);
        if start >= 16 {
            (Seq::empty(), data)
        } else {
            let h = run_length(data[row], start);
            let hmask = low_mask(h);
            let w = grow_width(data, row, start, hmask, 1);
            let cleared = clear_rows(data, row, w, hmask << start);
            let quad = GreedyQuad { x: row as u32, y: start, w: w as u32, h };
            proof {
                lemma_run_positive(data[row], y);
            }
            let rest = mesh_row(cleared, row, (start + h) as u32);
            (seq![quad] + rest.0, rest.1)
        }
    }
}

/// The quads of the rows from `row` on, row by row.
pub open spec fn mesh_rows(data: Seq<u32>, row: int) -> Seq<GreedyQuad>
    decreases data.len() - row,
{
    if row < 0 || row >= data.len() {
        Seq::empty()
    } else {
        let here = mesh_row(data, row, 0);
        proof {
            lemma_mesh_row_len(data, row, 0);
        }
        here.0 + mesh_rows(here.1, row + 1)
    }
}

/// Meshing a row clears bits and leaves the number of rows as it was.
pub proof fn lemma_mesh_row_len(data: Seq<u32>, row: int, y: u32)
    ensures
        mesh_row(data, row, y).1.len() == data.len(),
    decreases 32 - y,
{
    if y < 16 && 0 <= row < data.len() {
        let start = next_set(data[row], y);
        if start < 16 {
            lemma_run_positive(data[row], y);
            let h = run_length(data[row], start);
            let hmask = low_mask(h);
            let w = grow_width(data, row, start, hmask, 1);
            let cleared = clear_rows(data, row, w, hmask << start);
            lemma_mesh_row_len(cleared, row, (start + h) as u32);
        }
    }
}

/// The greedy decomposition of a binary plane into rectangles. Rows are
/// taken in order; in each row every run of set bits that starts below bit
/// 16 becomes a quad, which is widened over the following rows for as long
/// as they hold the whole run; the bits a quad takes from later rows are
/// cleared, so that no face is emitted twice.
pub open spec fn greedy_quads(data: Seq<u32>) -> Seq<GreedyQuad> {
    mesh_rows(data, 0)
}

/// A run that starts at a set bit below 32 is at least one bit long, and it
/// ends at or below bit 32.
pub proof fn lemma_run_positive(row: u32, y: u32)
    requires
        y < 16,
        next_set(row, y) < 16,
    ensures
        y <= next_set(row, y),
        1 <= run_length(row, next_set(row, y)) <= 32 - next_set(row, y),
        bit(row, next_set(row, y) as int),
{
    let shifted = row >> y;
    let tz = u32_trailing_zeros(shifted);
    axiom_u32_trailing_zeros(shifted);
    let start = next_set(row, y);
    assert(start == y + tz);
    let v = row >> start;
    assert((row >> start) & 1 == 1) by (bit_vector)
        requires
            ((row >> y) >> tz) & 1 == 1,
            start == y + tz,
            start < 16,
    ;
    let ones = u32_trailing_zeros(!v);
    axiom_u32_trailing_zeros(!v);
    if ones == 0 {
        assert(((!v) >> 0u32) & 1 == 1 ==> v & 1 != 1) by (bit_vector);
        assert(false);
    }
    if ones > 32 - start {
        let j: u32 = (32 - start) as u32;
        assert(((!v) >> j) & 1 == 0);
        assert(((!v) >> j) & 1 == 1) by (bit_vector)
            requires
                v == row >> start,
                j == 32 - start,
                0 < start < 16,
        ;
        assert(false);
    }
}

/// The index list of a vertex list made of quads: for each group of four
/// vertices two triangles, over the corners 0, 1, 2 and 0, 2, 3.
pub open spec fn quad_indices(quads: nat) -> Seq<u32>
    decreases quads,
{
    if quads == 0 {
        Seq::empty()
    } else {
        let base = ((quads - 1) * 4) as u32;
        quad_indices((quads - 1) as nat) + seq![
            base,
            (base + 1) as u32,
            (base + 2) as u32,
            base,
            (base + 2) as u32,
            (base + 3) as u32,
        ]
    }
}

/// Builds the index list for `vertex_count` vertices that come in quads;
/// vertices past the last whole quad get no index.
pub fn generate_indices(vertex_count: usize) -> (indices: Vec<u32>)
    requires
        vertex_count <= u32::MAX,
    ensures
        indices@ == quad_indices((vertex_count / 4) as nat),
        indices@.len() == 6 * (vertex_count / 4),
{
    let indices_count = vertex_count / 4;
    let mut indices: Vec<u32> = Vec::with_capacity(indices_count);
    let mut quad: usize = 0;
    while quad < indices_count
        invariant
            quad <= indices_count,
            indices_count == vertex_count / 4,
            vertex_count <= u32::MAX,
            indices@ == quad_indices(quad as nat),
            indices@.len() == 6 * quad,
        decreases indices_count - quad,
    {
        let vert_index: u32 = (quad * 4) as u32;
        indices.push(vert_index);
        indices.push(vert_index + 1);
        indices.push(vert_index + 2);
        indices.push(vert_index);
        indices.push(vert_index + 2);
        indices.push(vert_index + 3);
        quad = quad + 1;
        proof {
            reveal_with_fuel(quad_indices, 2);
            assert(indices@ =~= quad_indices(quad as nat));
        }
    }
    indices
}

/// Merges the set bits of a binary plane of `N` rows into rectangles.
pub fn greedy_mesh_plane<const N: usize>(data: [u32; N]) -> (greedy_quads: Vec<GreedyQuad>)
    requires
        N <= u32::MAX,
    ensures
        greedy_quads@ == self::greedy_quads(data@),
        forall|i: int|
            0 <= i < greedy_quads@.len() ==> (#[trigger] greedy_quads@[i]).well_sized(N as int),
        greedy_quads@.len() <= 16 * N,
{
    let mut data = data;
    let ghost initial = data@;
    let mut quads: Vec<GreedyQuad> = Vec::new();
    let mut row: usize = 0;
    while row < N
        invariant
            row <= N,
            N <= u32::MAX,
            data@.len() == N,
            quads@ + mesh_rows(data@, row as int) == mesh_rows(initial, 0),
            forall|i: int| 0 <= i < quads@.len() ==> (#[trigger] quads@[i]).well_sized(N as int),
            quads@.len() <= 16 * row,
        decreases N - row,
    {
        let ghost row_start = data@;
        let ghost done = quads@;
        let mut y: u32 = 0;
        while y < 16
            invariant
                row < N,
                N <= u32::MAX,
                data@.len() == N,
                quads@ + mesh_row(data@, row as int, y).0 == done + mesh_row(row_start, row as int, 0).0,
                mesh_row(data@, row as int, y).1 == mesh_row(row_start, row as int, 0).1,
                forall|i: int| 0 <= i < quads@.len() ==> (#[trigger] quads@[i]).well_sized(N as int),
                quads@.len() <= 16 * row + if y < 16 {
                    y as int
                } else {
                    16int
                },
            decreases 48 - y,
        {
            let ghost before = data@;
            let ghost y0 = y;
            let skipped: u32 = (data[row] >> y).trailing_zeros();
            proof {
                axiom_u32_trailing_zeros(data[row as int] >> y);
            }
            y = y + skipped;
            if y < 16 {
                proof {
                    lemma_run_positive(data[row as int], y0);
                }
                let h: u32 = (data[row] >> y).trailing_ones();
                let h_as_mask: u32 = if h >= 32 {
                    !0u32
                } else {
                    assert((1u32 << h) >= 1) by (bit_vector)
                        requires
                            h < 32,
                    ;
                    (1u32 << h) - 1
                };
                let mask: u32 = h_as_mask << y;
                let mut w: usize = 1;
                while row + w < MERGE_ROWS && row + w < N && (data[row + w] >> y) & h_as_mask
                    == h_as_mask
                    invariant
                        row < N,
                        1 <= w,
                        row + w <= N,
                        w == 1 || row + w <= MERGE_ROWS,
                        y < 16,
                        data@.len() == N,
                        before.len() == N,
                        data@ == clear_rows(before, row as int, w as int, mask),
                        grow_width(before, row as int, y, h_as_mask, w as int) == grow_width(
                            before,
                            row as int,
                            y,
                            h_as_mask,
                            1,
                        ),
                    decreases N - (row + w),
                {
                    data[row + w] = data[row + w] & !mask;
                    w = w + 1;
                    assert(data@ =~= clear_rows(before, row as int, w as int, mask));
                }
                assert(grow_width(before, row as int, y, h_as_mask, w as int) == w);
                quads.push(GreedyQuad { y, w: w as u32, h, x: row as u32 });
                assert(quads@.last().well_sized(N as int));
                y = y + h;
                proof {
                    assert(quads@ + mesh_row(data@, row as int, y).0 =~= done + mesh_row(
                        row_start,
                        row as int,
                        0,
                    ).0) by {
                        let rest = mesh_row(data@, row as int, y);
                        let whole = mesh_row(before, row as int, y0);
                        assert(whole.0 =~= seq![quads@.last()] + rest.0);
                        assert(quads@ =~= quads@.drop_last().push(quads@.last()));
                    }
                }
            } else {
                assert(mesh_row(data@, row as int, y0).0 =~= Seq::<GreedyQuad>::empty());
                assert(mesh_row(data@, row as int, y).0 =~= Seq::<GreedyQuad>::empty());
            }
        }
        proof {
            assert(mesh_row(data@, row as int, y).0 =~= Seq::<GreedyQuad>::empty());
            assert(quads@ =~= done + mesh_row(row_start, row as int, 0).0);
            assert(done + mesh_rows(row_start, row as int) =~= quads@ + mesh_rows(
                data@,
                row as int + 1,
            ));
        }
        row = row + 1;
    }
    proof {
        assert(quads@ =~= quads@ + mesh_rows(data@, N as int));
    }
    quads
}

/// A transparent quad as plain data: the block it starts at and its four
/// corners, in the order first corner, along the rows, opposite corner,
/// along the bits.
pub struct QuadView {
    pub center: Vector3,
    pub corners: Seq<SurfaceVertex>,
}

/// The records of a list of quads as plain data.
pub open spec fn quad_views(quads: Seq<Quad>) -> Seq<QuadView> {
    Seq::new(quads.len(), |i: int| QuadView { center: quads[i].center, corners: quads[i].vertices@ })
}

/// The geometry of a slice for one pass: the vertices, four a quad in
/// winding order, and the record of each quad.
pub struct MeshView {
    pub vertices: Seq<SurfaceVertex>,
    pub quads: Seq<QuadView>,
}

impl MeshView {
    /// The mesh without geometry.
    pub open spec fn empty() -> MeshView {
        MeshView { vertices: Seq::empty(), quads: Seq::empty() }
    }

    /// This mesh followed by another.
    pub open spec fn join(self, other: MeshView) -> MeshView {
        MeshView { vertices: self.vertices + other.vertices, quads: self.quads + other.quads }
    }
}

/// The vertex at corner `(x, y)` of a face in layer `axis`.
pub open spec fn corner(
    face: BlockFace,
    axis: int,
    x: int,
    y: int,
    nth: u32,
    texture: usize,
    illumination: u32,
) -> SurfaceVertex {
    let p = face.world_to_sample_spec(axis as i32, x as i32, y as i32);
    SurfaceVertex {
        d0: pack_vertex(
            p[0],
            p[1],
            p[2],
            face.index_spec(),
            nth,
            texture as u32,
        ),
        illumination,
    }
}

/// The four corners of a quad.
pub open spec fn quad_corners(
    q: GreedyQuad,
    face: BlockFace,
    axis: int,
    texture: usize,
    illumination: u32,
) -> Seq<SurfaceVertex> {
    seq![
        corner(face, axis, q.x as int, q.y as int, 0, texture, illumination),
        corner(face, axis, q.x + q.w, q.y as int, 1, texture, illumination),
        corner(face, axis, q.x + q.w, q.y + q.h, 2, texture, illumination),
        corner(face, axis, q.x as int, q.y + q.h, 3, texture, illumination),
    ]
}

/// The corners in the order in which they are emitted: faces that are
/// wound backwards keep the first corner and reverse the others.
pub open spec fn wound(face: BlockFace, c: Seq<SurfaceVertex>) -> Seq<SurfaceVertex> {
    if face.reverse_order_spec() {
        seq![c[0], c[3], c[2], c[1]]
    } else {
        c
    }
}

/// What one quad adds to a mesh.
pub open spec fn quad_mesh(
    q: GreedyQuad,
    face: BlockFace,
    axis: int,
    texture: usize,
    illumination: u32,
    center: Vector3,
) -> MeshView {
    let corners = quad_corners(q, face, axis, texture, illumination);
    MeshView { vertices: wound(face, corners), quads: seq![QuadView { center, corners }] }
}

/// Emits one quad: four vertices in winding order, and the quad's record.
pub fn emit_quad(
    q: &GreedyQuad,
    vertices: &mut Vec<SurfaceVertex>,
    quads: &mut Vec<Quad>,
    face: BlockFace,
    axis: u32,
    texture: usize,
    illumination: u32,
    center: Vector3,
)
    requires
        q.x + q.w < i32::MAX,
        q.y + q.h < i32::MAX,
        axis < i32::MAX,
    ensures
        final(vertices)@ == old(vertices)@ + quad_mesh(
            *q,
            face,
            axis as int,
            texture,
            illumination,
            center,
        ).vertices,
        quad_views(final(quads)@) == quad_views(old(quads)@) + quad_mesh(
            *q,
            face,
            axis as int,
            texture,
            illumination,
            center,
        ).quads,
{
    let axis = axis as i32;
    let x0 = q.x as i32;
    let y0 = q.y as i32;
    let x1 = q.x as i32 + q.w as i32;
    let y1 = q.y as i32 + q.h as i32;
    let tex = (texture, 0usize, 0usize);
    let v1 = SurfaceVertex::from_position(face.world_to_sample(axis, x0, y0), face, 0, tex, illumination);
    let v2 = SurfaceVertex::from_position(face.world_to_sample(axis, x1, y0), face, 1, tex, illumination);
    let v3 = SurfaceVertex::from_position(face.world_to_sample(axis, x1, y1), face, 2, tex, illumination);
    let v4 = SurfaceVertex::from_position(face.world_to_sample(axis, x0, y1), face, 3, tex, illumination);
    let ghost corners = quad_corners(*q, face, axis as int, texture, illumination);
    assert(v1 == corners[0]);
    assert(v2 == corners[1]);
    assert(v3 == corners[2]);
    assert(v4 == corners[3]);
    let record = Quad { center, vertices: [v1, v2, v3, v4] };
    assert(record.vertices@ =~= corners);
    quads.push(record);
    if face.reverse_order() {
        vertices.push(v1);
        vertices.push(v4);
        vertices.push(v3);
        vertices.push(v2);
    } else {
        vertices.push(v1);
        vertices.push(v2);
        vertices.push(v3);
        vertices.push(v4);
    }
    assert(vertices@ =~= old(vertices)@ + wound(face, corners));
    assert(quad_views(quads@) =~= quad_views(old(quads)@) + seq![QuadView { center, corners }]);
}

/// The packed light of the block at a world position, 0 where there is none.
pub open spec fn illumination_at(w: Map<u32, ChunkView>, p: Option<Vector3>) -> u32 {
    match p {
        Some(p) => sample_at(w, p).illumination,
        None => 0,
    }
}

impl GreedyQuad {
    /// Emits this quad as a face of `block` in layer `axis`: the vertices
    /// carry the block's texture for the face and the light of the block
    /// beyond the face; the quad's record is centred on the block.
    pub fn append_vertices(
        &self,
        vertices: &mut Vec<SurfaceVertex>,
        face_dir: BlockFace,
        axis: u32,
        block: &Block,
        chunks: &ChunkMap,
        textures: &BlockTextures,
        quads: &mut Vec<Quad>,
    )
        requires
            self.x + self.w < i32::MAX,
            self.y + self.h < i32::MAX,
            axis < i32::MAX,
        ensures
            final(vertices)@ == old(vertices)@ + quad_mesh(
                *self,
                face_dir,
                axis as int,
                surface_texture(block.kind, face_dir, *textures),
                illumination_at(chunks@, offset_spec(block.absolute_position, face_dir.normal_spec())),
                block.absolute_position,
            ).vertices,
            quad_views(final(quads)@) == quad_views(old(quads)@) + quad_mesh(
                *self,
                face_dir,
                axis as int,
                surface_texture(block.kind, face_dir, *textures),
                illumination_at(chunks@, offset_spec(block.absolute_position, face_dir.normal_spec())),
                block.absolute_position,
            ).quads,
    {
        let illumination = match offset(block.get_absolute_position(), face_dir.normal()) {
            Some(next) => match chunks.block_at(next) {
                Some(b) => calculate_illumination_bytes(b),
                None => 0,
            },
            None => 0,
        };
        let tex = block.get_surface_textures(face_dir, textures);
        emit_quad(
            self,
            vertices,
            quads,
            face_dir,
            axis,
            tex.0,
            illumination,
            block.get_absolute_position(),
        );
    }
}

/// Merges the set bits of a 16 by 16 binary plane into rectangles.
pub fn greedy_mesh_binary_plane(data: [u32; 16]) -> (quads: Vec<GreedyQuad>)
    ensures
        quads@ == greedy_quads(data@),
        forall|i: int| 0 <= i < quads@.len() ==> (#[trigger] quads@[i]).well_sized(16),
        quads@.len() <= 256,
{
    greedy_mesh_plane::<16>(data)
}

/// What decides whether two faces of a layer may merge: the kind of their
/// block and the light of the block beyond them.
#[derive(Clone, Copy, Debug, PartialEq, Eq, Structural)]
pub struct FaceKey {
    pub kind: Blocks,
    pub illumination: u32,
}

/// The direction of the faces numbered `f`: the even numbers look down the
/// axes y, x and z, the odd numbers up.
pub open spec fn face_direction(f: int) -> BlockFace {
    if f == 0 {
        BlockFace::Bottom
    } else if f == 1 {
        BlockFace::Top
    } else if f == 2 {
        BlockFace::Left
    } else if f == 3 {
        BlockFace::Right
    } else if f == 4 {
        BlockFace::Front
    } else {
        BlockFace::Back
    }
}

/// The direction of the faces numbered `f`.
pub fn face_of(f: usize) -> (r: BlockFace)
    ensures
        r == face_direction(f as int),
{
    if f == 0 {
        BlockFace::Bottom
    } else if f == 1 {
        BlockFace::Top
    } else if f == 2 {
        BlockFace::Left
    } else if f == 3 {
        BlockFace::Right
    } else if f == 4 {
        BlockFace::Front
    } else {
        BlockFace::Back
    }
}

/// The place in the sampled volume of the block that shows the face at row
/// `r`, cell `c` of layer `l` in direction `f`.
pub open spec fn face_voxel(f: int, l: int, r: int, c: int) -> int {
    column_cell(f / 2, c + 1, r + 1, l + 1)
}

/// The place of the block beyond that face.
pub open spec fn face_neighbor(f: int, l: int, r: int, c: int) -> int {
    column_cell(
        f / 2,
        c + 1,
        r + 1,
        if f % 2 == 0 {
            l
        } else {
            l + 2
        },
    )
}

/// The key of the face at row `r`, cell `c` of layer `l` in direction `f`: the
/// kind of its block and the light of the block beyond it.
pub open spec fn face_key(halo: Seq<Sample>, f: int, l: int, r: int, c: int) -> FaceKey {
    FaceKey {
        kind: halo[face_voxel(f, l, r, c)].kind,
        illumination: halo[face_neighbor(f, l, r, c)].illumination,
    }
}

fn face_key_at(halo: &Vec<Sample>, f: usize, l: usize, r: usize, c: usize) -> (key: FaceKey)
    requires
        halo@.len() == HALO_CELLS,
        f < 6,
        l < 16,
        r < 16,
        c < 16,
    ensures
        key == face_key(halo@, f as int, l as int, r as int, c as int),
{
    let voxel = column_cell_index(f / 2, c + 1, r + 1, l + 1);
    let beyond = column_cell_index(
        f / 2,
        c + 1,
        r + 1,
        if f % 2 == 0 {
            l
        } else {
            l + 2
        },
    );
    FaceKey { kind: halo[voxel].kind, illumination: halo[beyond].illumination }
}

/// The position in the slice of the block at row `r`, cell `c` of layer `l`
/// for the faces of direction `f`.
pub open spec fn face_block(f: int, l: int, r: int, c: int) -> (int, int, int) {
    if f / 2 == 0 {
        (r, l, c)
    } else if f / 2 == 1 {
        (l, c, r)
    } else {
        (r, c, l)
    }
}

/// What a mesh is made for: the slice and the textures.
pub struct MeshTarget {
    pub cx: int,
    pub cz: int,
    pub slice: int,
    pub textures: BlockTextures,
}

/// The world position of a block of the target slice.
pub open spec fn block_position(t: MeshTarget, local: (int, int, int)) -> Vector3 {
    Vector3 {
        x: (t.cx * 16 + local.0) as i32,
        y: (t.slice * 16 + local.1) as i32,
        z: (t.cz * 16 + local.2) as i32,
    }
}

/// Which cells of row `r` of a plane show a face with the given key.
pub open spec fn keyed_faces(
    halo: Seq<Sample>,
    plane: Seq<u32>,
    f: int,
    l: int,
    r: int,
    key: FaceKey,
) -> spec_fn(int) -> bool {
    |c: int| bit(plane[r], c) && face_key(halo, f, l, r, c) == key
}

/// The faces of a plane that carry the given key.
pub open spec fn selection(halo: Seq<Sample>, plane: Seq<u32>, f: int, l: int, key: FaceKey) -> Seq<
    u32,
> {
    Seq::new(16, |r: int| bits_of(keyed_faces(halo, plane, f, l, r, key), 16))
}

/// The plane without the faces of `sel`.
pub open spec fn without(plane: Seq<u32>, sel: Seq<u32>) -> Seq<u32> {
    Seq::new(16, |r: int| plane[r] & !sel[r])
}

/// The mesh of a list of quads of one layer and key, in order.
pub open spec fn emit_all(quads: Seq<GreedyQuad>, t: MeshTarget, f: int, l: int, key: FaceKey) -> MeshView
    decreases quads.len(),
{
    if quads.len() == 0 {
        MeshView::empty()
    } else {
        let q = quads[0];
        quad_mesh(
            q,
            face_direction(f),
            l,
            surface_texture(key.kind, face_direction(f), t.textures),
            key.illumination,
            block_position(t, face_block(f, l, q.x as int, q.y as int)),
        ).join(emit_all(quads.skip(1), t, f, l, key))
    }
}

/// The mesh of the faces of a layer from row `r` on. The first face that
/// is left, by rows and in a row by cells, names a key; all faces of the
/// layer with that key are merged greedily and emitted and leave the
/// plane; and so on until no face is left. Faces with different keys never
/// share a quad.
pub open spec fn peel(halo: Seq<Sample>, t: MeshTarget, plane: Seq<u32>, f: int, l: int, r: int) -> MeshView
    decreases 16 - r, 32 - u32_trailing_zeros(plane[r]),
{
    if r < 0 || r >= 16 {
        MeshView::empty()
    } else if u32_trailing_zeros(plane[r]) >= 16 {
        peel(halo, t, plane, f, l, r + 1)
    } else {
        let c = u32_trailing_zeros(plane[r]) as int;
        let key = face_key(halo, f, l, r, c);
        let sel = selection(halo, plane, f, l, key);
        proof {
            lemma_peel_progress(halo, plane, f, l, r);
        }
        emit_all(greedy_quads(sel), t, f, l, key).join(peel(halo, t, without(plane, sel), f, l, r))
    }
}

/// Taking the faces with the key of the first face out of a row moves the
/// row's first face to a higher cell.
pub proof fn lemma_peel_progress(halo: Seq<Sample>, plane: Seq<u32>, f: int, l: int, r: int)
    requires
        0 <= r < 16,
        u32_trailing_zeros(plane[r]) < 16,
    ensures
        ({
            let c = u32_trailing_zeros(plane[r]) as int;
            let sel = selection(halo, plane, f, l, face_key(halo, f, l, r, c));
            u32_trailing_zeros(plane[r]) < u32_trailing_zeros(without(plane, sel)[r]) <= 32
        }),
{
    let a = plane[r];
    let t = u32_trailing_zeros(a);
    let key = face_key(halo, f, l, r, t as int);
    let sel = selection(halo, plane, f, l, key);
    let s = sel[r];
    let b = a & !s;
    assert(without(plane, sel)[r] == b);
    axiom_u32_trailing_zeros(a);
    axiom_u32_trailing_zeros(b);
    lemma_bits_of_bit(keyed_faces(halo, plane, f, l, r, key), 16, t as int);
    assert(bit(a, t as int));
    assert(bit(s, t as int));
    let u = u32_trailing_zeros(b);
    if u < 32 {
        assert(((a & !s) >> u) & 1 == 1 ==> (a >> u) & 1 == 1 && (s >> u) & 1 == 0) by (bit_vector)
            requires
                u < 32,
        ;
        if u < t {
            assert((a >> u) & 1 == 0);
        }
    }
}

/// The mesh of the layers from number `n` on, where layer `n` is layer
/// `n % 16` of direction `n / 16`.
pub open spec fn mesh_layers(halo: Seq<Sample>, stage: MeshStageType, t: MeshTarget, n: int) -> MeshView
    decreases 96 - n,
{
    if n < 0 || n >= 96 {
        MeshView::empty()
    } else {
        peel(halo, t, layer_plane(halo, stage, n / 16, n % 16), n / 16, n % 16, 0).join(
            mesh_layers(halo, stage, t, n + 1),
        )
    }
}

/// The mesh of slice `slice` of the chunk at `(cx, cz)` for one pass: empty
/// where the chunk is not loaded or the slice does not exist; else the
/// faces of the six directions, layer by layer.
pub open spec fn slice_mesh(
    w: Map<u32, ChunkView>,
    cx: int,
    cz: int,
    slice: int,
    stage: MeshStageType,
    textures: BlockTextures,
) -> MeshView {
    if 0 <= slice < 16 && chunk_at(w, cx * 16, cz * 16).is_some() {
        mesh_layers(halo_of(w, cx, cz, slice), stage, MeshTarget { cx, cz, slice, textures }, 0)
    } else {
        MeshView::empty()
    }
}

/// Emits the quads of one layer and key.
fn emit_layer_quads(
    found: &Vec<GreedyQuad>,
    vertices: &mut Vec<SurfaceVertex>,
    quads: &mut Vec<Quad>,
    cx: i32,
    cz: i32,
    slice: u32,
    textures: &BlockTextures,
    f: usize,
    l: usize,
    key: FaceKey,
)
    requires
        -CHUNK_COORD_LIMIT <= cx < CHUNK_COORD_LIMIT,
        -CHUNK_COORD_LIMIT <= cz < CHUNK_COORD_LIMIT,
        slice < 16,
        f < 6,
        l < 16,
        forall|i: int| 0 <= i < found@.len() ==> (#[trigger] found@[i]).well_sized(16),
    ensures
        final(vertices)@ == old(vertices)@ + emit_all(
            found@,
            MeshTarget { cx: cx as int, cz: cz as int, slice: slice as int, textures: *textures },
            f as int,
            l as int,
            key,
        ).vertices,
        quad_views(final(quads)@) == quad_views(old(quads)@) + emit_all(
            found@,
            MeshTarget { cx: cx as int, cz: cz as int, slice: slice as int, textures: *textures },
            f as int,
            l as int,
            key,
        ).quads,
        final(vertices)@.len() == old(vertices)@.len() + 4 * found@.len(),
{
    let ghost t = MeshTarget {
        cx: cx as int,
        cz: cz as int,
        slice: slice as int,
        textures: *textures,
    };
    let face = face_of(f);
    let texture = match key.kind {
        Blocks::AIR => 0,
        Blocks::DIRT => textures.dirt,
        Blocks::GRASS => match face {
            BlockFace::Top => textures.grass_top,
            BlockFace::Bottom => textures.dirt,
            _ => textures.grass_side,
        },
        Blocks::STONE => textures.stone,
        Blocks::LOG => match face {
            BlockFace::Top => textures.log_top,
            BlockFace::Bottom => textures.log_top,
            _ => textures.log,
        },
        Blocks::LEAF => textures.leaf,
    };
    let ghost target = emit_all(found@, t, f as int, l as int, key);
    let mut i: usize = 0;
    assert(found@.skip(0) =~= found@);
    while i < found.len()
        invariant
            i <= found@.len(),
            -CHUNK_COORD_LIMIT <= cx < CHUNK_COORD_LIMIT,
            -CHUNK_COORD_LIMIT <= cz < CHUNK_COORD_LIMIT,
            slice < 16,
            f < 6,
            l < 16,
            face == face_direction(f as int),
            texture == surface_texture(key.kind, face, *textures),
            t == (MeshTarget {
                cx: cx as int,
                cz: cz as int,
                slice: slice as int,
                textures: *textures,
            }),
            forall|j: int| 0 <= j < found@.len() ==> (#[trigger] found@[j]).well_sized(16),
            vertices@ + emit_all(found@.skip(i as int), t, f as int, l as int, key).vertices == old(vertices)@ + target.vertices,
            quad_views(quads@) + emit_all(found@.skip(i as int), t, f as int, l as int, key).quads
                == quad_views(old(quads)@) + target.quads,
            vertices@.len() == old(vertices)@.len() + 4 * i,
        decreases found@.len() - i,
    {
        let q = found[i];
        assert(q.well_sized(16));
        let (x, y, z) = if f / 2 == 0 {
            (q.x, l as u32, q.y)
        } else if f / 2 == 1 {
            (l as u32, q.y, q.x)
        } else {
            (q.x, q.y, l as u32)
        };
        let center = Vector3::new(cx * 16 + x as i32, (slice * 16 + y) as i32, cz * 16 + z as i32);
        let ghost vertices_before = vertices@;
        let ghost quads_before = quad_views(quads@);
        let ghost left = found@.skip(i as int);
        emit_quad(&q, vertices, quads, face, l as u32, texture, key.illumination, center);
        proof {
            let one = quad_mesh(q, face, l as int, texture, key.illumination, center);
            let rest = emit_all(found@.skip(i as int + 1), t, f as int, l as int, key);
            assert(left[0] == q);
            assert(left.skip(1) =~= found@.skip(i as int + 1));
            assert(emit_all(left, t, f as int, l as int, key) == one.join(rest));
            assert(vertices@ + rest.vertices =~= vertices_before + (one.vertices + rest.vertices));
            assert(quad_views(quads@) + rest.quads =~= quads_before + (one.quads + rest.quads));
        }
        i = i + 1;
    }
    proof {
        let last = emit_all(found@.skip(found@.len() as int), t, f as int, l as int, key);
        assert(vertices@ =~= vertices@ + last.vertices);
        assert(quad_views(quads@) =~= quad_views(quads@) + last.quads);
    }
}

/// The faces of a plane that carry `key`, as a plane of their own.
fn select_faces(halo: &Vec<Sample>, plane: &[u32; 16], f: usize, l: usize, key: FaceKey) -> (sel: [u32; 16])
    requires
        halo@.len() == HALO_CELLS,
        f < 6,
        l < 16,
    ensures
        sel@ == selection(halo@, plane@, f as int, l as int, key),
{
    let mut sel: [u32; 16] = [0u32;16];
    let mut r: usize = 0;
    while r < 16
        invariant
            r <= 16,
            f < 6,
            l < 16,
            halo@.len() == HALO_CELLS,
            forall|j: int|
                0 <= j < r ==> #[trigger] sel@[j] == bits_of(
                    keyed_faces(halo@, plane@, f as int, l as int, j, key),
                    16,
                ),
        decreases 16 - r,
    {
        let ghost wanted = keyed_faces(halo@, plane@, f as int, l as int, r as int, key);
        let mut row: u32 = 0;
        let mut c: usize = 0;
        while c < 16
            invariant
                c <= 16,
                r < 16,
                f < 6,
                l < 16,
                halo@.len() == HALO_CELLS,
                wanted == keyed_faces(halo@, plane@, f as int, l as int, r as int, key),
                row == bits_of(wanted, c as int),
            decreases 16 - c,
        {
            let mut take = false;
            if (plane[r] >> (c as u32)) & 1 == 1 {
                let here = face_key_at(halo, f, l, r, c);
                take = here == key;
            }
            if take {
                row = row | (1u32 << (c as u32));
            } else {
                assert(row | 0u32 == row) by (bit_vector);
            }
            c = c + 1;
        }
        sel[r] = row;
        r = r + 1;
    }
    assert(sel@ =~= selection(halo@, plane@, f as int, l as int, key));
    sel
}

/// Meshes one layer of faces.
fn mesh_layer(
    halo: &Vec<Sample>,
    plane: [u32; 16],
    vertices: &mut Vec<SurfaceVertex>,
    quads: &mut Vec<Quad>,
    cx: i32,
    cz: i32,
    slice: u32,
    textures: &BlockTextures,
    f: usize,
    l: usize,
)
    requires
        halo@.len() == HALO_CELLS,
        -CHUNK_COORD_LIMIT <= cx < CHUNK_COORD_LIMIT,
        -CHUNK_COORD_LIMIT <= cz < CHUNK_COORD_LIMIT,
        slice < 16,
        f < 6,
        l < 16,
    ensures
        final(vertices)@ == old(vertices)@ + peel(
            halo@,
            MeshTarget { cx: cx as int, cz: cz as int, slice: slice as int, textures: *textures },
            plane@,
            f as int,
            l as int,
            0,
        ).vertices,
        quad_views(final(quads)@) == quad_views(old(quads)@) + peel(
            halo@,
            MeshTarget { cx: cx as int, cz: cz as int, slice: slice as int, textures: *textures },
            plane@,
            f as int,
            l as int,
            0,
        ).quads,
        final(vertices)@.len() <= old(vertices)@.len() + 1024 * 528,
{
    let ghost t = MeshTarget {
        cx: cx as int,
        cz: cz as int,
        slice: slice as int,
        textures: *textures,
    };
    let ghost target = peel(halo@, t, plane@, f as int, l as int, 0);
    let mut plane = plane;
    let mut r: usize = 0;
    proof {
        axiom_u32_trailing_zeros(plane@[0]);
    }
    while r < 16
        invariant
            r <= 16,
            halo@.len() == HALO_CELLS,
            -CHUNK_COORD_LIMIT <= cx < CHUNK_COORD_LIMIT,
            -CHUNK_COORD_LIMIT <= cz < CHUNK_COORD_LIMIT,
            slice < 16,
            f < 6,
            l < 16,
            t == (MeshTarget {
                cx: cx as int,
                cz: cz as int,
                slice: slice as int,
                textures: *textures,
            }),
            vertices@ + peel(halo@, t, plane@, f as int, l as int, r as int).vertices == old(vertices)@ + target.vertices,
            quad_views(quads@) + peel(halo@, t, plane@, f as int, l as int, r as int).quads
                == quad_views(old(quads)@) + target.quads,
            r < 16 ==> u32_trailing_zeros(plane@[r as int]) <= 32,
            vertices@.len() + 1024 * (33 * (16 - r) - if r < 16 {
                u32_trailing_zeros(plane@[r as int]) as int
            } else {
                0int
            }) <= old(vertices)@.len() + 1024 * 528,
        decreases 16 - r, 32 - u32_trailing_zeros(plane@[r as int]),
    {
        let c = plane[r].trailing_zeros();
        if c >= 16 {
            r = r + 1;
            proof {
                if r < 16 {
                    axiom_u32_trailing_zeros(plane@[r as int]);
                }
            }
        } else {
            let ghost before = plane@;
            let key = face_key_at(halo, f, l, r, c as usize);
            let sel = select_faces(halo, &plane, f, l, key);
            let found = greedy_mesh_binary_plane(sel);
            let ghost vertices_before = vertices@;
            let ghost quads_before = quad_views(quads@);
            emit_layer_quads(&found, vertices, quads, cx, cz, slice, textures, f, l, key);
            let mut j: usize = 0;
            while j < 16
                invariant
                    j <= 16,
                    before.len() == 16,
                    forall|k: int| 0 <= k < j ==> #[trigger] plane@[k] == before[k] & !sel@[k],
                    forall|k: int| j <= k < 16 ==> #[trigger] plane@[k] == before[k],
                decreases 16 - j,
            {
                plane[j] = plane[j] & !sel[j];
                j = j + 1;
            }
            proof {
                assert(plane@ =~= without(before, sel@));
                lemma_peel_progress(halo@, before, f as int, l as int, r as int);
                let here = emit_all(found@, t, f as int, l as int, key);
                let rest = peel(halo@, t, plane@, f as int, l as int, r as int);
                assert(peel(halo@, t, before, f as int, l as int, r as int).vertices == here.vertices
                    + rest.vertices);
                assert(vertices@ + rest.vertices =~= vertices_before + (here.vertices
                    + rest.vertices));
                assert(quad_views(quads@) + rest.quads =~= quads_before + (here.quads + rest.quads));
            }
        }
    }
    proof {
        assert(vertices@ =~= vertices@ + peel(halo@, t, plane@, f as int, l as int, 16).vertices);
        assert(quad_views(quads@) =~= quad_views(quads@) + peel(
            halo@,
            t,
            plane@,
            f as int,
            l as int,
            16,
        ).quads);
    }
}

/// Whether there is something to mesh: the slice exists and its chunk is loaded.
fn slice_loaded(chunks: &ChunkMap, chunk_x: i32, chunk_z: i32, y_slice: u32) -> (r: bool)
    ensures
        r == (y_slice < 16 && chunk_at(chunks@, chunk_x as int * 16, chunk_z as int * 16).is_some()),
        r ==> -CHUNK_COORD_LIMIT <= chunk_x < CHUNK_COORD_LIMIT && -CHUNK_COORD_LIMIT <= chunk_z
            < CHUNK_COORD_LIMIT,
{
    assert((chunk_x as int * 16) / 16 == chunk_x as int);
    assert((chunk_z as int * 16) / 16 == chunk_z as int);
    if y_slice >= 16 {
        return false;
    }
    match chunks.get(crate::chunk::xz_to_index(chunk_x, chunk_z)) {
        Some(chunk) => {
            let position = chunk.position();
            position.x == chunk_x && position.y == chunk_z
        },
        None => false,
    }
}

/// Meshes slice `y_slice` of the chunk at `(chunk_x, chunk_z)` for one
/// pass. Hands back the vertices, the indices, the number of indices, and
/// the record of every quad.
pub fn binary_mesh(
    chunk_x: i32,
    chunk_z: i32,
    y_slice: u32,
    chunks: &ChunkMap,
    stage: MeshStageType,
    textures: &BlockTextures,
) -> (mesh: (Vec<SurfaceVertex>, Vec<u32>, u32, Vec<Quad>))
    ensures
        mesh.0@ == slice_mesh(
            chunks@,
            chunk_x as int,
            chunk_z as int,
            y_slice as int,
            stage,
            *textures,
        ).vertices,
        quad_views(mesh.3@) == slice_mesh(
            chunks@,
            chunk_x as int,
            chunk_z as int,
            y_slice as int,
            stage,
            *textures,
        ).quads,
        mesh.1@ == quad_indices((mesh.0@.len() / 4) as nat),
        mesh.2 == mesh.1@.len(),
{
    let mut vertices: Vec<SurfaceVertex> = Vec::new();
    let mut quads: Vec<Quad> = Vec::new();
    let ghost t = MeshTarget {
        cx: chunk_x as int,
        cz: chunk_z as int,
        slice: y_slice as int,
        textures: *textures,
    };
    if slice_loaded(chunks, chunk_x, chunk_z, y_slice) {
        let halo = sample_halo(chunks, chunk_x, chunk_z, y_slice);
        let cols = build_columns(&halo, stage);
        let masks = build_masks(&cols, Ghost(halo@), Ghost(stage));
        let ghost target = mesh_layers(halo@, stage, t, 0);
        let mut n: usize = 0;
        while n < 96
            invariant
                n <= 96,
                halo@.len() == HALO_CELLS,
                crate::halo::masks_built(halo@, stage, masks@),
                -CHUNK_COORD_LIMIT <= chunk_x < CHUNK_COORD_LIMIT,
                -CHUNK_COORD_LIMIT <= chunk_z < CHUNK_COORD_LIMIT,
                y_slice < 16,
                t == (MeshTarget {
                    cx: chunk_x as int,
                    cz: chunk_z as int,
                    slice: y_slice as int,
                    textures: *textures,
                }),
                vertices@ + mesh_layers(halo@, stage, t, n as int).vertices == target.vertices,
                quad_views(quads@) + mesh_layers(halo@, stage, t, n as int).quads == target.quads,
                vertices@.len() <= n * 540672,
            decreases 96 - n,
        {
            let f = n / 16;
            let l = n % 16;
            let plane = build_layer(&masks, f, l, Ghost(halo@), Ghost(stage));
            let ghost vertices_before = vertices@;
            let ghost quads_before = quad_views(quads@);
            mesh_layer(&halo, plane, &mut vertices, &mut quads, chunk_x, chunk_z, y_slice, textures, f, l);
            proof {
                let here = peel(halo@, t, plane@, f as int, l as int, 0);
                let rest = mesh_layers(halo@, stage, t, n as int + 1);
                assert(vertices@ + rest.vertices =~= vertices_before + (here.vertices
                    + rest.vertices));
                assert(quad_views(quads@) + rest.quads =~= quads_before + (here.quads + rest.quads));
            }
            n = n + 1;
        }
        proof {
            assert(vertices@ =~= vertices@ + mesh_layers(halo@, stage, t, 96).vertices);
            assert(quad_views(quads@) =~= quad_views(quads@) + mesh_layers(halo@, stage, t, 96).quads);
        }
    } else {
        proof {
            assert(quad_views(quads@) =~= Seq::<QuadView>::empty());
        }
    }
    let indices = generate_indices(vertices.len());
    let ilen = indices.len() as u32;
    (vertices, indices, ilen, quads)
}

} // verus!
