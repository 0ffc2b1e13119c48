use vstd::prelude::*;
use vstd::std_specs::bits::{u32_trailing_zeros, axiom_u32_trailing_zeros};
use crate::binarymesher::{
    FaceKey,
    GreedyQuad,
    MeshStageType,
    MeshTarget,
    MeshView,
    QuadView,
    bit,
    block_position,
    emit_all,
    face_block,
    face_direction,
    face_key,
    face_neighbor,
    face_voxel,
    greedy_quads,
    keyed_faces,
    mesh_layers,
    peel,
    quad_mesh,
    selection,
    without,
};
use crate::blocks::{Blocks, surface_texture};
use crate::greedy_laws::{
    is_rectangle,
    lemma_rectangle_is_one_quad,
    lemma_run_word,
    lemma_run_word_bit,
    run_word,
};
use crate::halo::{Sample, halo_index, layer_faces, layer_plane, lemma_bits_of_bit, occupied};
use crate::mesh_laws::{lemma_face_where_filled_meets_empty, lemma_peel_nothing};
use crate::surfacevertex::SurfaceVertex;

verus! {

/// Two words with the same bits are the same word.
pub proof fn lemma_word_by_bits(a: u32, b: u32)
    requires
        forall|i: int| 0 <= i < 32 ==> bit(a, i) == #[trigger] bit(b, i),
    ensures
        a == b,
{
    assert(bit(a, 0) == bit(b, 0));
    assert(bit(a, 1) == bit(b, 1));
    assert(bit(a, 2) == bit(b, 2));
    assert(bit(a, 3) == bit(b, 3));
    assert(bit(a, 4) == bit(b, 4));
    assert(bit(a, 5) == bit(b, 5));
    assert(bit(a, 6) == bit(b, 6));
    assert(bit(a, 7) == bit(b, 7));
    assert(bit(a, 8) == bit(b, 8));
    assert(bit(a, 9) == bit(b, 9));
    assert(bit(a, 10) == bit(b, 10));
    assert(bit(a, 11) == bit(b, 11));
    assert(bit(a, 12) == bit(b, 12));
    assert(bit(a, 13) == bit(b, 13));
    assert(bit(a, 14) == bit(b, 14));
    assert(bit(a, 15) == bit(b, 15));
    assert(bit(a, 16) == bit(b, 16));
    assert(bit(a, 17) == bit(b, 17));
    assert(bit(a, 18) == bit(b, 18));
    assert(bit(a, 19) == bit(b, 19));
    assert(bit(a, 20) == bit(b, 20));
    assert(bit(a, 21) == bit(b, 21));
    assert(bit(a, 22) == bit(b, 22));
    assert(bit(a, 23) == bit(b, 23));
    assert(bit(a, 24) == bit(b, 24));
    assert(bit(a, 25) == bit(b, 25));
    assert(bit(a, 26) == bit(b, 26));
    assert(bit(a, 27) == bit(b, 27));
    assert(bit(a, 28) == bit(b, 28));
    assert(bit(a, 29) == bit(b, 29));
    assert(bit(a, 30) == bit(b, 30));
    assert(bit(a, 31) == bit(b, 31));
    assert(a == b) by (bit_vector)
        requires
            ((a >> 0u32) & 1 == 1) == ((b >> 0u32) & 1 == 1),
            ((a >> 1u32) & 1 == 1) == ((b >> 1u32) & 1 == 1),
            ((a >> 2u32) & 1 == 1) == ((b >> 2u32) & 1 == 1),
            ((a >> 3u32) & 1 == 1) == ((b >> 3u32) & 1 == 1),
            ((a >> 4u32) & 1 == 1) == ((b >> 4u32) & 1 == 1),
            ((a >> 5u32) & 1 == 1) == ((b >> 5u32) & 1 == 1),
            ((a >> 6u32) & 1 == 1) == ((b >> 6u32) & 1 == 1),
            ((a >> 7u32) & 1 == 1) == ((b >> 7u32) & 1 == 1),
            ((a >> 8u32) & 1 == 1) == ((b >> 8u32) & 1 == 1),
            ((a >> 9u32) & 1 == 1) == ((b >> 9u32) & 1 == 1),
            ((a >> 10u32) & 1 == 1) == ((b >> 10u32) & 1 == 1),
            ((a >> 11u32) & 1 == 1) == ((b >> 11u32) & 1 == 1),
            ((a >> 12u32) & 1 == 1) == ((b >> 12u32) & 1 == 1),
            ((a >> 13u32) & 1 == 1) == ((b >> 13u32) & 1 == 1),
            ((a >> 14u32) & 1 == 1) == ((b >> 14u32) & 1 == 1),
            ((a >> 15u32) & 1 == 1) == ((b >> 15u32) & 1 == 1),
            ((a >> 16u32) & 1 == 1) == ((b >> 16u32) & 1 == 1),
            ((a >> 17u32) & 1 == 1) == ((b >> 17u32) & 1 == 1),
            ((a >> 18u32) & 1 == 1) == ((b >> 18u32) & 1 == 1),
            ((a >> 19u32) & 1 == 1) == ((b >> 19u32) & 1 == 1),
            ((a >> 20u32) & 1 == 1) == ((b >> 20u32) & 1 == 1),
            ((a >> 21u32) & 1 == 1) == ((b >> 21u32) & 1 == 1),
            ((a >> 22u32) & 1 == 1) == ((b >> 22u32) & 1 == 1),
            ((a >> 23u32) & 1 == 1) == ((b >> 23u32) & 1 == 1),
            ((a >> 24u32) & 1 == 1) == ((b >> 24u32) & 1 == 1),
            ((a >> 25u32) & 1 == 1) == ((b >> 25u32) & 1 == 1),
            ((a >> 26u32) & 1 == 1) == ((b >> 26u32) & 1 == 1),
            ((a >> 27u32) & 1 == 1) == ((b >> 27u32) & 1 == 1),
            ((a >> 28u32) & 1 == 1) == ((b >> 28u32) & 1 == 1),
            ((a >> 29u32) & 1 == 1) == ((b >> 29u32) & 1 == 1),
            ((a >> 30u32) & 1 == 1) == ((b >> 30u32) & 1 == 1),
            ((a >> 31u32) & 1 == 1) == ((b >> 31u32) & 1 == 1),
    ;
}

/// A box of blocks in a slice, in the slice's own coordinates: it holds
/// the blocks from `(x0, y0, z0)` up to, but not including, `(x1, y1, z1)`.
pub struct SliceBox {
    pub x0: int,
    pub x1: int,
    pub y0: int,
    pub y1: int,
    pub z0: int,
    pub z1: int,
}

impl SliceBox {
    /// A box is not empty and lies inside the slice.
    pub open spec fn wf(self) -> bool {
        &&& 0 <= self.x0 < self.x1 <= 16
        &&& 0 <= self.y0 < self.y1 <= 16
        &&& 0 <= self.z0 < self.z1 <= 16
    }

    /// Whether the block at `(x, y, z)` belongs to the box.
    pub open spec fn holds(self, x: int, y: int, z: int) -> bool {
        &&& self.x0 <= x < self.x1
        &&& self.y0 <= y < self.y1
        &&& self.z0 <= z < self.z1
    }

    /// The layer in which the box shows its faces of direction `f`.
    pub open spec fn layer(self, f: int) -> int {
        if f == 0 {
            self.y0
        } else if f == 1 {
            self.y1 - 1
        } else if f == 2 {
            self.x0
        } else if f == 3 {
            self.x1 - 1
        } else if f == 4 {
            self.z0
        } else {
            self.z1 - 1
        }
    }

    /// The rectangle that the faces of direction `f` form in their layer.
    pub open spec fn side(self, f: int) -> GreedyQuad {
        if f / 2 == 0 {
            GreedyQuad {
                x: self.x0 as u32,
                y: self.z0 as u32,
                w: (self.x1 - self.x0) as u32,
                h: (self.z1 - self.z0) as u32,
            }
        } else if f / 2 == 1 {
            GreedyQuad {
                x: self.z0 as u32,
                y: self.y0 as u32,
                w: (self.z1 - self.z0) as u32,
                h: (self.y1 - self.y0) as u32,
            }
        } else {
            GreedyQuad {
                x: self.x0 as u32,
                y: self.y0 as u32,
                w: (self.x1 - self.x0) as u32,
                h: (self.y1 - self.y0) as u32,
            }
        }
    }

    /// Whether the block at `(x, y, z)` lies right beyond the faces of
    /// direction `f` of the box.
    pub open spec fn beyond(self, f: int, x: int, y: int, z: int) -> bool {
        if f == 0 {
            self.holds(x, y + 1, z) && y == self.y0 - 1
        } else if f == 1 {
            self.holds(x, y - 1, z) && y == self.y1
        } else if f == 2 {
            self.holds(x + 1, y, z) && x == self.x0 - 1
        } else if f == 3 {
            self.holds(x - 1, y, z) && x == self.x1
        } else if f == 4 {
            self.holds(x, y, z + 1) && z == self.z0 - 1
        } else {
            self.holds(x, y, z - 1) && z == self.z1
        }
    }
}

/// What a lone box asks of one sampled block, at the padded place
/// `(px, py, pz)`: it is filled for the pass exactly where it belongs to
/// the box; in the box it is of the box's kind; and right beyond a side
/// of the box it holds the light of that side.
pub open spec fn fits_box(
    s: Sample,
    stage: MeshStageType,
    b: SliceBox,
    kind: Blocks,
    lights: Seq<u32>,
    px: int,
    py: int,
    pz: int,
) -> bool {
    &&& occupied(stage, s) == b.holds(px - 1, py - 1, pz - 1)
    &&& b.holds(px - 1, py - 1, pz - 1) ==> s.kind == kind
    &&& forall|f: int|
        0 <= f < 6 && #[trigger] b.beyond(f, px - 1, py - 1, pz - 1) ==> s.illumination == lights[f]
}

/// Whether, of all sampled blocks, exactly those of the box are filled for
/// the pass, all of them of one kind, and the blocks beyond each side of
/// the box hold one light, `lights[f]` for the side of direction `f`.
pub open spec fn lone_box(
    halo: Seq<Sample>,
    stage: MeshStageType,
    b: SliceBox,
    kind: Blocks,
    lights: Seq<u32>,
) -> bool {
    &&& b.wf()
    &&& lights.len() == 6
    &&& forall|px: int, py: int, pz: int|
        0 <= px < 18 && 0 <= py < 18 && 0 <= pz < 18 ==> fits_box(
            #[trigger] halo[halo_index(px, py, pz)],
            stage,
            b,
            kind,
            lights,
            px,
            py,
            pz,
        )
}

/// The quad that the box shows in direction `f`, as it is emitted.
pub open spec fn box_side_mesh(b: SliceBox, kind: Blocks, lights: Seq<u32>, t: MeshTarget, f: int) -> MeshView {
    quad_mesh(
        b.side(f),
        face_direction(f),
        b.layer(f),
        surface_texture(kind, face_direction(f), t.textures),
        lights[f],
        block_position(t, face_block(f, b.layer(f), b.side(f).x as int, b.side(f).y as int)),
    )
}

/// A word whose set bits are exactly those of a run is the word of the run.
proof fn lemma_word_is_run(x: u32, y: u32, h: u32)
    requires
        1 <= h,
        y + h <= 16,
        forall|c: int| 0 <= c < 32 ==> #[trigger] bit(x, c) == (y <= c < y + h),
    ensures
        x == run_word(y, h),
{
    assert forall|i: int| 0 <= i < 32 implies bit(x, i) == #[trigger] bit(run_word(y, h), i) by {
        lemma_run_word_bit(y, h, i as u32);
    }
    lemma_word_by_bits(x, run_word(y, h));
}

/// A word without set bits is zero.
proof fn lemma_word_is_zero(x: u32)
    requires
        forall|c: int| 0 <= c < 32 ==> !#[trigger] bit(x, c),
    ensures
        x == 0,
{
    assert forall|i: int| 0 <= i < 32 implies bit(x, i) == #[trigger] bit(0u32, i) by {
        let k = i as u32;
        assert((0u32 >> k) & 1 != 1) by (bit_vector);
    }
    lemma_word_by_bits(x, 0u32);
}

/// Where a box is all there is, a cell of a layer shows a face of
/// direction `f` exactly where it lies in the box's side of that
/// direction, in the layer of that side; and such a face carries the
/// kind of the box and the light of the side.
proof fn lemma_box_face(
    halo: Seq<Sample>,
    stage: MeshStageType,
    b: SliceBox,
    kind: Blocks,
    lights: Seq<u32>,
    f: int,
    l: int,
    r: int,
    c: int,
)
    requires
        lone_box(halo, stage, b, kind, lights),
        0 <= f < 6,
        0 <= l < 16,
        0 <= r < 16,
        0 <= c < 32,
    ensures
        bit(layer_plane(halo, stage, f, l)[r], c) == (l == b.layer(f) && b.side(f).x <= r < b.side(f).x
            + b.side(f).w && b.side(f).y <= c < b.side(f).y + b.side(f).h),
        bit(layer_plane(halo, stage, f, l)[r], c) ==> face_key(halo, f, l, r, c) == (FaceKey {
            kind,
            illumination: lights[f],
        }),
{
    lemma_bits_of_bit(layer_faces(halo, stage, f, l, r), 16, c);
    if c < 16 {
        lemma_face_where_filled_meets_empty(halo, stage, f, l, r, c);
        let a = f / 2;
        let beyond = if f % 2 == 0 {
            l
        } else {
            l + 2
        };
        if a == 0 {
            assert(face_voxel(f, l, r, c) == halo_index(r + 1, l + 1, c + 1));
            assert(face_neighbor(f, l, r, c) == halo_index(r + 1, beyond, c + 1));
            let v = halo[halo_index(r + 1, l + 1, c + 1)];
            let n = halo[halo_index(r + 1, beyond, c + 1)];
            assert(fits_box(v, stage, b, kind, lights, r + 1, l + 1, c + 1));
            assert(fits_box(n, stage, b, kind, lights, r + 1, beyond, c + 1));
            if b.holds(r, l, c) && !b.holds(r, beyond - 1, c) {
                assert(b.beyond(f, r, beyond - 1, c));
            }
        } else if a == 1 {
            assert(face_voxel(f, l, r, c) == halo_index(l + 1, c + 1, r + 1));
            assert(face_neighbor(f, l, r, c) == halo_index(beyond, c + 1, r + 1));
            let v = halo[halo_index(l + 1, c + 1, r + 1)];
            let n = halo[halo_index(beyond, c + 1, r + 1)];
            assert(fits_box(v, stage, b, kind, lights, l + 1, c + 1, r + 1));
            assert(fits_box(n, stage, b, kind, lights, beyond, c + 1, r + 1));
            if b.holds(l, c, r) && !b.holds(beyond - 1, c, r) {
                assert(b.beyond(f, beyond - 1, c, r));
            }
        } else {
            assert(face_voxel(f, l, r, c) == halo_index(r + 1, c + 1, l + 1));
            assert(face_neighbor(f, l, r, c) == halo_index(r + 1, c + 1, beyond));
            let v = halo[halo_index(r + 1, c + 1, l + 1)];
            let n = halo[halo_index(r + 1, c + 1, beyond)];
            assert(fits_box(v, stage, b, kind, lights, r + 1, c + 1, l + 1));
            assert(fits_box(n, stage, b, kind, lights, r + 1, c + 1, beyond));
            if b.holds(r, c, l) && !b.holds(r, c, beyond - 1) {
                assert(b.beyond(f, r, c, beyond - 1));
            }
        }
    }
}

/// Where a box is all there is, the plane of the faces of direction `f`
/// is the rectangle of the box's side in the layer of that side, and empty
/// in every other layer.
proof fn lemma_box_plane(
    halo: Seq<Sample>,
    stage: MeshStageType,
    b: SliceBox,
    kind: Blocks,
    lights: Seq<u32>,
    f: int,
    l: int,
)
    requires
        lone_box(halo, stage, b, kind, lights),
        0 <= f < 6,
        0 <= l < 16,
    ensures
        l == b.layer(f) ==> is_rectangle(
            layer_plane(halo, stage, f, l),
            b.side(f).x as int,
            b.side(f).y,
            b.side(f).w as int,
            b.side(f).h,
        ),
        l != b.layer(f) ==> forall|r: int|
            0 <= r < 16 ==> #[trigger] layer_plane(halo, stage, f, l)[r] == 0,
{
    let plane = layer_plane(halo, stage, f, l);
    let q = b.side(f);
    assert forall|r: int| 0 <= r < 16 implies #[trigger] plane[r] == if l == b.layer(f) && q.x <= r
        < q.x + q.w {
        run_word(q.y, q.h)
    } else {
        0u32
    } by {
        if l == b.layer(f) && q.x <= r < q.x + q.w {
            assert forall|c: int| 0 <= c < 32 implies #[trigger] bit(plane[r], c) == (q.y <= c < q.y
                + q.h) by {
                lemma_box_face(halo, stage, b, kind, lights, f, l, r, c);
            }
            lemma_word_is_run(plane[r], q.y, q.h);
        } else {
            assert forall|c: int| 0 <= c < 32 implies !#[trigger] bit(plane[r], c) by {
                lemma_box_face(halo, stage, b, kind, lights, f, l, r, c);
            }
            lemma_word_is_zero(plane[r]);
        }
    }
}

/// Rows without faces are passed over.
proof fn lemma_peel_skips(halo: Seq<Sample>, t: MeshTarget, plane: Seq<u32>, f: int, l: int, r: int, until: int)
    requires
        0 <= r <= until <= 16,
        forall|i: int| r <= i < until ==> #[trigger] plane[i] == 0,
    ensures
        peel(halo, t, plane, f, l, r) == peel(halo, t, plane, f, l, until),
    decreases until - r,
{
    if r < until {
        axiom_u32_trailing_zeros(0u32);
        assert(plane[r] == 0);
        lemma_peel_skips(halo, t, plane, f, l, r + 1, until);
    }
}

/// Where a box is all there is, the layer of a side of the box yields the
/// one quad of that side, and every other layer yields nothing.
proof fn lemma_box_layer(
    halo: Seq<Sample>,
    stage: MeshStageType,
    b: SliceBox,
    kind: Blocks,
    lights: Seq<u32>,
    t: MeshTarget,
    f: int,
    l: int,
)
    requires
        lone_box(halo, stage, b, kind, lights),
        0 <= f < 6,
        0 <= l < 16,
    ensures
        l == b.layer(f) ==> peel(halo, t, layer_plane(halo, stage, f, l), f, l, 0).vertices
            == box_side_mesh(b, kind, lights, t, f).vertices && peel(
            halo,
            t,
            layer_plane(halo, stage, f, l),
            f,
            l,
            0,
        ).quads == box_side_mesh(b, kind, lights, t, f).quads,
        l != b.layer(f) ==> peel(halo, t, layer_plane(halo, stage, f, l), f, l, 0) == MeshView::empty(),
{
    let plane = layer_plane(halo, stage, f, l);
    lemma_box_plane(halo, stage, b, kind, lights, f, l);
    if l != b.layer(f) {
        lemma_peel_nothing(halo, t, plane, f, l, 0);
    } else {
        let q = b.side(f);
        let x = q.x as int;
        lemma_run_word(q.y, q.h);
        lemma_peel_skips(halo, t, plane, f, l, 0, x);
        assert(plane[x] == run_word(q.y, q.h));
        let first = u32_trailing_zeros(plane[x]);
        let word = plane[x];
        assert(word >> 0u32 == word) by (bit_vector);
        assert(first == q.y);
        lemma_box_face(halo, stage, b, kind, lights, f, l, x, first as int);
        let key = face_key(halo, f, l, x, first as int);
        assert(key == (FaceKey { kind, illumination: lights[f] }));
        let sel = selection(halo, plane, f, l, key);
        assert forall|r: int| 0 <= r < 16 implies #[trigger] sel[r] == plane[r] by {
            assert forall|i: int| 0 <= i < 32 implies bit(sel[r], i) == #[trigger] bit(plane[r], i) by {
                lemma_bits_of_bit(keyed_faces(halo, plane, f, l, r, key), 16, i);
                lemma_box_face(halo, stage, b, kind, lights, f, l, r, i);
            }
            lemma_word_by_bits(sel[r], plane[r]);
        }
        assert(sel =~= plane);
        lemma_rectangle_is_one_quad(sel, x, q.y, q.w as int, q.h);
        assert(greedy_quads(sel) == seq![q]);
        let rest = without(plane, sel);
        assert forall|i: int| 0 <= i < 16 implies #[trigger] rest[i] == 0 by {
            let w = plane[i];
            assert(w & !w == 0) by (bit_vector);
        }
        lemma_peel_nothing(halo, t, rest, f, l, x);
        let one = emit_all(seq![q], t, f, l, key);
        reveal_with_fuel(emit_all, 2);
        assert(seq![q].skip(1) =~= Seq::<GreedyQuad>::empty());
        let side = box_side_mesh(b, kind, lights, t, f);
        assert(one.vertices =~= side.vertices);
        assert(one.quads =~= side.quads);
        let here = peel(halo, t, plane, f, l, x);
        assert(here == one.join(peel(halo, t, rest, f, l, x)));
        assert(here.vertices =~= side.vertices);
        assert(here.quads =~= side.quads);
    }
}

/// How many sides of the box lie in the layers before number `n`, where
/// layer `n` is layer `n % 16` of direction `n / 16`.
#[verifier::opaque]
pub open spec fn sides_before(b: SliceBox, n: int) -> int {
    (if b.layer(0) < n {
        1int
    } else {
        0int
    }) + (if 16 + b.layer(1) < n {
        1int
    } else {
        0int
    }) + (if 32 + b.layer(2) < n {
        1int
    } else {
        0int
    }) + (if 48 + b.layer(3) < n {
        1int
    } else {
        0int
    }) + (if 64 + b.layer(4) < n {
        1int
    } else {
        0int
    }) + (if 80 + b.layer(5) < n {
        1int
    } else {
        0int
    })
}

/// The records of the six quads of a box, by direction.
pub open spec fn box_quads(b: SliceBox, kind: Blocks, lights: Seq<u32>, t: MeshTarget) -> Seq<QuadView> {
    Seq::new(6, |f: int| box_side_mesh(b, kind, lights, t, f).quads[0])
}

/// The vertices of the six quads of a box, four a direction.
pub open spec fn box_vertices(b: SliceBox, kind: Blocks, lights: Seq<u32>, t: MeshTarget) -> Seq<
    SurfaceVertex,
> {
    Seq::new(24, |i: int| box_side_mesh(b, kind, lights, t, i / 4).vertices[i % 4])
}

/// Going from one layer to the next passes a side of the box exactly in
/// the layer of the side of that direction.
proof fn lemma_sides_before(b: SliceBox, n: int)
    requires
        b.wf(),
        0 <= n <= 96,
    ensures
        0 <= sides_before(b, n) <= 6,
        sides_before(b, 0) == 0,
        sides_before(b, 96) == 6,
        n < 96 && n % 16 == b.layer(n / 16) ==> sides_before(b, n) == n / 16 && sides_before(b, n + 1)
            == n / 16 + 1,
        n < 96 && n % 16 != b.layer(n / 16) ==> sides_before(b, n + 1) == sides_before(b, n),
{
    reveal(sides_before);
}

/// The quads and vertices of a box from side `k` on, with side `k` taken
/// off the front.
proof fn lemma_box_tail(b: SliceBox, kind: Blocks, lights: Seq<u32>, t: MeshTarget, k: int)
    requires
        0 <= k < 6,
    ensures
        box_quads(b, kind, lights, t).skip(k) == box_side_mesh(b, kind, lights, t, k).quads + box_quads(
            b,
            kind,
            lights,
            t,
        ).skip(k + 1),
        box_vertices(b, kind, lights, t).skip(4 * k) == box_side_mesh(b, kind, lights, t, k).vertices
            + box_vertices(b, kind, lights, t).skip(4 * (k + 1)),
{
    let quads = box_quads(b, kind, lights, t);
    let vertices = box_vertices(b, kind, lights, t);
    let side = box_side_mesh(b, kind, lights, t, k);
    assert(side.quads.len() == 1);
    assert(side.vertices.len() == 4);
    assert(quads.skip(k) =~= side.quads + quads.skip(k + 1));
    assert forall|i: int| 0 <= i < 4 implies #[trigger] vertices[4 * k + i] == side.vertices[i] by {
        assert((4 * k + i) / 4 == k && (4 * k + i) % 4 == i);
    }
    assert(vertices.skip(4 * k) =~= side.vertices + vertices.skip(4 * (k + 1)));
}

proof fn lemma_box_layers(
    halo: Seq<Sample>,
    stage: MeshStageType,
    b: SliceBox,
    kind: Blocks,
    lights: Seq<u32>,
    t: MeshTarget,
    n: int,
)
    requires
        lone_box(halo, stage, b, kind, lights),
        0 <= n <= 96,
    ensures
        mesh_layers(halo, stage, t, n).quads == box_quads(b, kind, lights, t).skip(sides_before(b, n)),
        mesh_layers(halo, stage, t, n).vertices == box_vertices(b, kind, lights, t).skip(
            4 * sides_before(b, n),
        ),
    decreases 96 - n,
{
    let quads = box_quads(b, kind, lights, t);
    let vertices = box_vertices(b, kind, lights, t);
    lemma_sides_before(b, n);
    if n >= 96 {
        assert(mesh_layers(halo, stage, t, n).quads =~= quads.skip(6));
        assert(mesh_layers(halo, stage, t, n).vertices =~= vertices.skip(24));
    } else {
        let f = n / 16;
        let l = n % 16;
        lemma_box_layer(halo, stage, b, kind, lights, t, f, l);
        lemma_box_layers(halo, stage, b, kind, lights, t, n + 1);
        let here = peel(halo, t, layer_plane(halo, stage, f, l), f, l, 0);
        let rest = mesh_layers(halo, stage, t, n + 1);
        let all = mesh_layers(halo, stage, t, n);
        assert(all == here.join(rest));
        if l == b.layer(f) {
            lemma_box_tail(b, kind, lights, t, f);
        } else {
            assert(here.quads + rest.quads =~= rest.quads);
            assert(here.vertices + rest.vertices =~= rest.vertices);
        }
    }
}

/// A box of blocks of one kind that stands alone in a slice, each of its
/// sides in one light, is meshed into exactly six quads, one for each
/// side of the box, whatever the size of the box.
pub proof fn lemma_box_is_six_quads(
    halo: Seq<Sample>,
    stage: MeshStageType,
    b: SliceBox,
    kind: Blocks,
    lights: Seq<u32>,
    t: MeshTarget,
)
    requires
        lone_box(halo, stage, b, kind, lights),
    ensures
        mesh_layers(halo, stage, t, 0).quads == box_quads(b, kind, lights, t),
        mesh_layers(halo, stage, t, 0).vertices == box_vertices(b, kind, lights, t),
        mesh_layers(halo, stage, t, 0).quads.len() == 6,
        mesh_layers(halo, stage, t, 0).vertices.len() == 24,
{
    lemma_box_layers(halo, stage, b, kind, lights, t, 0);
    lemma_sides_before(b, 0);
    assert(box_quads(b, kind, lights, t).skip(0) =~= box_quads(b, kind, lights, t));
    assert(box_vertices(b, kind, lights, t).skip(0) =~= box_vertices(b, kind, lights, t));
}

} // verus!
