use vstd::prelude::*;
use crate::binarymesher::{bit, MeshStageType};
use crate::blocks::{Blocks, illumination_word, calculate_illumination_bytes};
use crate::chunk::{ChunkView, CHUNK_COORD_LIMIT};
use crate::vector::Vector3;
use crate::world::{ChunkMap, block_at};

verus! {

/// The edge of the sampled volume: a slice and one block around it.
pub const HALO_EDGE: usize = 18;

pub const HALO_CELLS: usize = 5832;

/// What meshing needs to know of one block of the sampled volume.
#[derive(Clone, Copy, Debug, PartialEq, Eq, Structural)]
pub struct Sample {
    pub present: bool,
    pub kind: Blocks,
    pub illumination: u32,
}

/// The sample of a world position; where there is no block, an absent
/// sample of air without light.
pub open spec fn sample_at(w: Map<u32, ChunkView>, p: Vector3) -> Sample {
    match block_at(w, p) {
        Some(b) => Sample {
            present: true,
            kind: b.kind,
            illumination: illumination_word(b.lights, b.sunlight_intensity),
        },
        None => Sample { present: false, kind: Blocks::AIR, illumination: 0 },
    }
}

/// Whether a block of the given kind belongs to the pass.
pub open spec fn stage_accepts(stage: MeshStageType, kind: Blocks) -> bool {
    match stage {
        MeshStageType::Solid => !kind.transparent_spec(),
        MeshStageType::Transparent => kind.transparent_spec(),
        MeshStageType::Fluid => false,
    }
}

/// Whether a sampled block counts as filled when faces are culled for the
/// pass: it is there, it is not air, and its kind belongs to the pass.
pub open spec fn occupied(stage: MeshStageType, s: Sample) -> bool {
    s.present && s.kind != Blocks::AIR && stage_accepts(stage, s.kind)
}

/// Whether a sampled block counts as filled for the pass.
pub fn is_occupied(stage: MeshStageType, s: &Sample) -> (r: bool)
    ensures
        r == occupied(stage, *s),
{
    if !s.present {
        return false;
    }
    match s.kind {
        Blocks::AIR => false,
        _ => {
            let transparent = s.kind.has_partial_transparency();
            let fluid = s.kind.is_fluid();
            match stage {
                MeshStageType::Solid => !transparent,
                MeshStageType::Transparent => transparent,
                MeshStageType::Fluid => fluid,
            }
        },
    }
}

/// The place of the padded cell `(px, py, pz)` in the sampled volume.
pub open spec fn halo_index(px: int, py: int, pz: int) -> int {
    (pz * 18 + py) * 18 + px
}

/// The world position of the padded cell `(px, py, pz)` of a slice: the
/// slice's own blocks are the cells `1..17`.
pub open spec fn padded_position(cx: int, cz: int, slice: int, px: int, py: int, pz: int) -> Vector3 {
    Vector3 {
        x: (cx * 16 + px - 1) as i32,
        y: (slice * 16 + py - 1) as i32,
        z: (cz * 16 + pz - 1) as i32,
    }
}

/// The sampled volume of a slice: the samples of its 18 by 18 by 18 padded cells.
pub open spec fn halo_of(w: Map<u32, ChunkView>, cx: int, cz: int, slice: int) -> Seq<Sample> {
    Seq::new(
        HALO_CELLS as nat,
        |i: int| sample_at(w, padded_position(cx, cz, slice, i % 18, (i / 18) % 18, i / 324)),
    )
}

/// The place of a padded cell lies in the sampled volume and names the
/// cell's coordinates again.
pub proof fn lemma_halo_index(px: int, py: int, pz: int)
    requires
        0 <= px < 18,
        0 <= py < 18,
        0 <= pz < 18,
    ensures
        0 <= halo_index(px, py, pz) < 5832,
        halo_index(px, py, pz) % 18 == px,
        (halo_index(px, py, pz) / 18) % 18 == py,
        halo_index(px, py, pz) / 324 == pz,
{
    let i = halo_index(px, py, pz);
    assert(i == 324 * pz + (18 * py + px));
    vstd::arithmetic::div_mod::lemma_fundamental_div_mod_converse(i, 324, pz, 18 * py + px);
    vstd::arithmetic::div_mod::lemma_fundamental_div_mod_converse(i, 18, 18 * pz + py, px);
    vstd::arithmetic::div_mod::lemma_fundamental_div_mod_converse(18 * pz + py, 18, pz, py);
}

/// Samples the slice `slice` of the chunk at `(cx, cz)` with one block
/// around it.
pub fn sample_halo(chunks: &ChunkMap, cx: i32, cz: i32, slice: u32) -> (halo: Vec<Sample>)
    requires
        -CHUNK_COORD_LIMIT <= cx < CHUNK_COORD_LIMIT,
        -CHUNK_COORD_LIMIT <= cz < CHUNK_COORD_LIMIT,
        slice < 16,
    ensures
        halo@ == halo_of(chunks@, cx as int, cz as int, slice as int),
{
    let mut halo: Vec<Sample> = Vec::with_capacity(HALO_CELLS);
    let mut pz: i32 = 0;
    while pz < 18
        invariant
            0 <= pz <= 18,
            -CHUNK_COORD_LIMIT <= cx < CHUNK_COORD_LIMIT,
            -CHUNK_COORD_LIMIT <= cz < CHUNK_COORD_LIMIT,
            slice < 16,
            halo@.len() == pz * 324,
            forall|i: int|
                0 <= i < halo@.len() ==> #[trigger] halo@[i] == halo_of(
                    chunks@,
                    cx as int,
                    cz as int,
                    slice as int,
                )[i],
        decreases 18 - pz,
    {
        let mut py: i32 = 0;
        while py < 18
            invariant
                0 <= pz < 18,
                0 <= py <= 18,
                -CHUNK_COORD_LIMIT <= cx < CHUNK_COORD_LIMIT,
                -CHUNK_COORD_LIMIT <= cz < CHUNK_COORD_LIMIT,
                slice < 16,
                halo@.len() == pz * 324 + py * 18,
                forall|i: int|
                    0 <= i < halo@.len() ==> #[trigger] halo@[i] == halo_of(
                        chunks@,
                        cx as int,
                        cz as int,
                        slice as int,
                    )[i],
            decreases 18 - py,
        {
            let mut px: i32 = 0;
            while px < 18
                invariant
                    0 <= pz < 18,
                    0 <= py < 18,
                    0 <= px <= 18,
                    -CHUNK_COORD_LIMIT <= cx < CHUNK_COORD_LIMIT,
                    -CHUNK_COORD_LIMIT <= cz < CHUNK_COORD_LIMIT,
                    slice < 16,
                    halo@.len() == pz * 324 + py * 18 + px,
                    forall|i: int|
                        0 <= i < halo@.len() ==> #[trigger] halo@[i] == halo_of(
                            chunks@,
                            cx as int,
                            cz as int,
                            slice as int,
                        )[i],
                decreases 18 - px,
            {
                let p = Vector3::new(
                    cx * 16 + px - 1,
                    slice as i32 * 16 + py - 1,
                    cz * 16 + pz - 1,
                );
                proof {
                    lemma_halo_index(px as int, py as int, pz as int);
                }
                let sample = match chunks.block_at(p) {
                    Some(b) => Sample {
                        present: true,
                        kind: b.get_block(),
                        illumination: calculate_illumination_bytes(b),
                    },
                    None => Sample { present: false, kind: Blocks::AIR, illumination: 0 },
                };
                assert(sample == sample_at(chunks@, p));
                halo.push(sample);
                px = px + 1;
            }
            py = py + 1;
        }
        pz = pz + 1;
    }
    assert(halo@ =~= halo_of(chunks@, cx as int, cz as int, slice as int));
    halo
}

/// The word whose bit `i`, for `i` below `n`, is set where `f(i)` holds.
pub open spec fn bits_of(f: spec_fn(int) -> bool, n: int) -> u32
    decreases n,
{
    if n <= 0 {
        0
    } else {
        bits_of(f, n - 1) | if f(n - 1) {
            1u32 << ((n - 1) as u32)
        } else {
            0u32
        }
    }
}

/// Words built from predicates that agree below `n` are equal.
pub proof fn lemma_bits_of_agree(f: spec_fn(int) -> bool, g: spec_fn(int) -> bool, n: int)
    requires
        forall|i: int| 0 <= i < n ==> #[trigger] f(i) == g(i),
    ensures
        bits_of(f, n) == bits_of(g, n),
    decreases n,
{
    if n > 0 {
        lemma_bits_of_agree(f, g, n - 1);
    }
}

/// Bit `i` of the word built from `f` is set exactly where `i` is below `n`
/// and `f(i)` holds.
pub proof fn lemma_bits_of_bit(f: spec_fn(int) -> bool, n: int, i: int)
    requires
        0 <= n <= 32,
        0 <= i < 32,
    ensures
        bit(bits_of(f, n), i) == (i < n && f(i)),
    decreases n,
{
    if n <= 0 {
        let k = i as u32;
        assert((0u32 >> k) & 1 != 1) by (bit_vector);
    } else {
        lemma_bits_of_bit(f, n - 1, i);
        let low = bits_of(f, n - 1);
        let k = i as u32;
        let m = (n - 1) as u32;
        if f(n - 1) {
            assert(((low | (1u32 << m)) >> k) & 1 == 1 <==> ((low >> k) & 1 == 1 || k == m))
                by (bit_vector)
                requires
                    k < 32,
                    m < 32,
            ;
        } else {
            assert(low | 0u32 == low) by (bit_vector);
        }
    }
}

/// The place in the sampled volume of cell `i` of a column along axis `a`:
/// axis 0 runs along y over the columns `(z, x)`, axis 1 along x over
/// `(y, z)`, axis 2 along z over `(y, x)`; `first` and `second` name the
/// column in that order.
pub open spec fn column_cell(a: int, first: int, second: int, i: int) -> int {
    if a == 0 {
        halo_index(second, i, first)
    } else if a == 1 {
        halo_index(i, first, second)
    } else {
        halo_index(second, first, i)
    }
}

/// The place in the sampled volume of cell `i` of a column along axis `a`.
pub fn column_cell_index(a: usize, first: usize, second: usize, i: usize) -> (r: usize)
    requires
        a < 3,
        first < 18,
        second < 18,
        i < 18,
    ensures
        r == column_cell(a as int, first as int, second as int, i as int),
        r < HALO_CELLS,
{
    proof {
        lemma_halo_index(second as int, i as int, first as int);
        lemma_halo_index(i as int, first as int, second as int);
        lemma_halo_index(second as int, first as int, i as int);
    }
    if a == 0 {
        (first * 18 + i) * 18 + second
    } else if a == 1 {
        (second * 18 + first) * 18 + i
    } else {
        (i * 18 + first) * 18 + second
    }
}

/// Which cells of a column are filled for the pass.
pub open spec fn column_filled(
    halo: Seq<Sample>,
    stage: MeshStageType,
    a: int,
    first: int,
    second: int,
) -> spec_fn(int) -> bool {
    |i: int| occupied(stage, halo[column_cell(a, first, second, i)])
}

/// The occupancy word of a column: bit `i` is set where cell `i` is filled.
pub open spec fn column_bits(
    halo: Seq<Sample>,
    stage: MeshStageType,
    a: int,
    first: int,
    second: int,
) -> u32 {
    bits_of(column_filled(halo, stage, a, first, second), 18)
}

/// The faces of a column that look along direction `f`: for an even `f`
/// the filled cells whose lower neighbour is empty, for an odd `f` those
/// whose upper neighbour is empty.
pub open spec fn face_bits(col: u32, f: int) -> u32 {
    if f % 2 == 0 {
        col & !(col << 1)
    } else {
        col & !(col >> 1)
    }
}

/// The place of column `(first, second)` of plane `k` in a table of planes.
pub open spec fn table_index(k: int, first: int, second: int) -> int {
    (k * 18 + first) * 18 + second
}

/// The occupancy words of all columns of the three axes.
pub open spec fn columns_built(halo: Seq<Sample>, stage: MeshStageType, cols: Seq<u32>) -> bool {
    &&& cols.len() == 972
    &&& forall|a: int, first: int, second: int|
        0 <= a < 3 && 0 <= first < 18 && 0 <= second < 18 ==> #[trigger] cols[table_index(
            a,
            first,
            second,
        )] == column_bits(halo, stage, a, first, second)
}

/// The face words of all columns of the six directions.
pub open spec fn masks_built(halo: Seq<Sample>, stage: MeshStageType, masks: Seq<u32>) -> bool {
    &&& masks.len() == 1944
    &&& forall|f: int, first: int, second: int|
        0 <= f < 6 && 0 <= first < 18 && 0 <= second < 18 ==> #[trigger] masks[table_index(
            f,
            first,
            second,
        )] == face_bits(column_bits(halo, stage, f / 2, first, second), f)
}

pub(crate) fn build_columns(halo: &Vec<Sample>, stage: MeshStageType) -> (cols: Vec<u32>)
    requires
        halo@.len() == HALO_CELLS,
    ensures
        columns_built(halo@, stage, cols@),
{
    let mut cols: Vec<u32> = Vec::with_capacity(972);
    let mut n: usize = 0;
    while n < 972
        invariant
            n <= 972,
            halo@.len() == HALO_CELLS,
            cols@.len() == n,
            forall|j: int|
                0 <= j < n ==> #[trigger] cols@[j] == column_bits(
                    halo@,
                    stage,
                    j / 324,
                    (j / 18) % 18,
                    j % 18,
                ),
        decreases 972 - n,
    {
        let a = n / 324;
        let first = (n / 18) % 18;
        let second = n % 18;
        let ghost filled = column_filled(halo@, stage, a as int, first as int, second as int);
        let mut col: u32 = 0;
        let mut i: usize = 0;
        while i < 18
            invariant
                i <= 18,
                a < 3,
                first < 18,
                second < 18,
                halo@.len() == HALO_CELLS,
                filled == column_filled(halo@, stage, a as int, first as int, second as int),
                col == bits_of(filled, i as int),
            decreases 18 - i,
        {
            let cell = column_cell_index(a, first, second, i);
            if is_occupied(stage, &halo[cell]) {
                col = col | (1u32 << (i as u32));
            } else {
                assert(col | 0u32 == col) by (bit_vector);
            }
            i = i + 1;
        }
        cols.push(col);
        n = n + 1;
    }
    proof {
        assert forall|a: int, first: int, second: int|
            0 <= a < 3 && 0 <= first < 18 && 0 <= second < 18 implies #[trigger] cols@[table_index(
                a,
                first,
                second,
            )] == column_bits(halo@, stage, a, first, second) by {
            let j = table_index(a, first, second);
            assert(j == 324 * a + (18 * first + second));
            vstd::arithmetic::div_mod::lemma_fundamental_div_mod_converse(
                j,
                324,
                a,
                18 * first + second,
            );
            vstd::arithmetic::div_mod::lemma_fundamental_div_mod_converse(
                j,
                18,
                18 * a + first,
                second,
            );
            vstd::arithmetic::div_mod::lemma_fundamental_div_mod_converse(
                18 * a + first,
                18,
                a,
                first,
            );
        }
    }
    cols
}

pub(crate) fn build_masks(cols: &Vec<u32>, Ghost(halo): Ghost<Seq<Sample>>, Ghost(stage): Ghost<
    MeshStageType,
>) -> (masks: Vec<u32>)
    requires
        columns_built(halo, stage, cols@),
    ensures
        masks_built(halo, stage, masks@),
{
    let mut masks: Vec<u32> = Vec::with_capacity(1944);
    let mut n: usize = 0;
    while n < 1944
        invariant
            n <= 1944,
            columns_built(halo, stage, cols@),
            masks@.len() == n,
            forall|j: int|
                0 <= j < n ==> #[trigger] masks@[j] == face_bits(
                    column_bits(halo, stage, (j / 324) / 2, (j / 18) % 18, j % 18),
                    j / 324,
                ),
        decreases 1944 - n,
    {
        let f = n / 324;
        let first = (n / 18) % 18;
        let second = n % 18;
        assert(cols@[table_index((f / 2) as int, first as int, second as int)] == column_bits(
            halo,
            stage,
            (f / 2) as int,
            first as int,
            second as int,
        ));
        let col = cols[((f / 2) * 18 + first) * 18 + second];
        let mask = if f % 2 == 0 {
            col & !(col << 1)
        } else {
            col & !(col >> 1)
        };
        masks.push(mask);
        n = n + 1;
    }
    proof {
        assert forall|f: int, first: int, second: int|
            0 <= f < 6 && 0 <= first < 18 && 0 <= second < 18 implies #[trigger] masks@[table_index(
                f,
                first,
                second,
            )] == face_bits(column_bits(halo, stage, f / 2, first, second), f) by {
            let j = table_index(f, first, second);
            assert(j == 324 * f + (18 * first + second));
            vstd::arithmetic::div_mod::lemma_fundamental_div_mod_converse(
                j,
                324,
                f,
                18 * first + second,
            );
            vstd::arithmetic::div_mod::lemma_fundamental_div_mod_converse(
                j,
                18,
                18 * f + first,
                second,
            );
            vstd::arithmetic::div_mod::lemma_fundamental_div_mod_converse(
                18 * f + first,
                18,
                f,
                first,
            );
        }
    }
    masks
}

/// Which cells of row `r` of layer `l` show a face of direction `f`.
pub open spec fn layer_faces(
    halo: Seq<Sample>,
    stage: MeshStageType,
    f: int,
    l: int,
    r: int,
) -> spec_fn(int) -> bool {
    |c: int| bit(face_bits(column_bits(halo, stage, f / 2, c + 1, r + 1), f), l + 1)
}

/// Row `r` of the plane of faces of direction `f` in layer `l` of the
/// slice: bit `c` is set where the block at row `r`, cell `c` of the layer
/// shows a face.
pub open spec fn layer_row(halo: Seq<Sample>, stage: MeshStageType, f: int, l: int, r: int) -> u32 {
    bits_of(layer_faces(halo, stage, f, l, r), 16)
}

/// The plane of the faces of direction `f` in layer `l`.
pub open spec fn layer_plane(halo: Seq<Sample>, stage: MeshStageType, f: int, l: int) -> Seq<u32> {
    Seq::new(16, |r: int| layer_row(halo, stage, f, l, r))
}

pub(crate) fn build_layer(
    masks: &Vec<u32>,
    f: usize,
    l: usize,
    Ghost(halo): Ghost<Seq<Sample>>,
    Ghost(stage): Ghost<MeshStageType>,
) -> (plane: [u32; 16])
    requires
        masks_built(halo, stage, masks@),
        f < 6,
        l < 16,
    ensures
        plane@ == layer_plane(halo, stage, f as int, l as int),
{
    let mut plane: [u32; 16] = [0u32;16];
    let mut r: usize = 0;
    while r < 16
        invariant
            r <= 16,
            f < 6,
            l < 16,
            masks_built(halo, stage, masks@),
            forall|j: int|
                0 <= j < r ==> #[trigger] plane@[j] == layer_row(halo, stage, f as int, l as int, j),
        decreases 16 - r,
    {
        let ghost faces = layer_faces(halo, stage, f as int, l as int, r as int);
        let mut row: u32 = 0;
        let mut c: usize = 0;
        while c < 16
            invariant
                c <= 16,
                r < 16,
                f < 6,
                l < 16,
                masks_built(halo, stage, masks@),
                faces == layer_faces(halo, stage, f as int, l as int, r as int),
                row == bits_of(faces, c as int),
            decreases 16 - c,
        {
            assert(masks@[table_index(f as int, c as int + 1, r as int + 1)] == face_bits(
                column_bits(halo, stage, f as int / 2, c as int + 1, r as int + 1),
                f as int,
            ));
            let mask = masks[(f * 18 + (c + 1)) * 18 + (r + 1)];
            if (mask >> ((l + 1) as u32)) & 1 == 1 {
                row = row | (1u32 << (c as u32));
            } else {
                assert(row | 0u32 == row) by (bit_vector);
            }
            c = c + 1;
        }
        plane[r] = row;
        r = r + 1;
    }
    assert(plane@ =~= layer_plane(halo, stage, f as int, l as int));
    plane
}

} // verus!
