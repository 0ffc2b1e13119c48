use vstd::prelude::*;
use vstd::std_specs::bits::{u32_trailing_zeros, axiom_u32_trailing_zeros};
use crate::binarymesher::{
    GreedyQuad,
    bit,
    next_set,
    run_length,
    low_mask,
    grow_width,
    clear_rows,
    mesh_row,
    mesh_rows,
    greedy_quads,
    lemma_run_positive,
    lemma_mesh_row_len,
};

verus! {

/// The lowest set bit of a word is where its trailing zeros end.
pub proof fn lemma_trailing_zeros_is(x: u32, t: u32)
    requires
        t < 32,
        bit(x, t as int),
        forall|j: u32| j < t ==> !bit(x, j as int),
    ensures
        u32_trailing_zeros(x) == t,
{
    axiom_u32_trailing_zeros(x);
    let z = u32_trailing_zeros(x);
    assert((x >> t) & 1 == 1 ==> x != 0) by (bit_vector);
    if z < t {
        assert(!bit(x, z as int));
    } else if z > t {
        assert((x >> t) & 1 == 0);
    }
}

/// The word of `h` set bits from bit `y` on.
pub open spec fn run_word(y: u32, h: u32) -> u32 {
    low_mask(h) << y
}

/// Bit `i` of a run is set exactly inside the run.
pub proof fn lemma_run_word_bit(y: u32, h: u32, i: u32)
    requires
        1 <= h,
        y + h <= 16,
        i < 32,
    ensures
        bit(run_word(y, h), i as int) == (y <= i < y + h),
{
    assert(((((1u32 << h) - 1) as u32) << y) >> i & 1 == 1 <==> (y <= i && i < y + h)) by (bit_vector)
        requires
            1 <= h,
            y + h <= 16,
            i < 32,
    ;
}

/// What the mesher reads off a run: it starts where the run starts, is
/// as long as the run, holds its own mask, and nothing follows it.
pub proof fn lemma_run_word(y: u32, h: u32)
    requires
        1 <= h,
        y + h <= 16,
    ensures
        next_set(run_word(y, h), 0) == y,
        run_length(run_word(y, h), y) == h,
        (run_word(y, h) >> y) & low_mask(h) == low_mask(h),
        run_word(y, h) & !run_word(y, h) == 0,
        y + h < 16 ==> next_set(run_word(y, h), (y + h) as u32) >= 32,
        low_mask(h) != 0,
        (0u32 >> y) & low_mask(h) != low_mask(h),
{
    let r = run_word(y, h);
    let m = low_mask(h);
    assert(m == ((1u32 << h) - 1) as u32);
    assert forall|j: u32| j < y implies !bit(r, j as int) by {
        lemma_run_word_bit(y, h, j);
    }
    lemma_run_word_bit(y, h, y);
    lemma_trailing_zeros_is(r, y);
    assert(r >> 0u32 == r) by (bit_vector);
    assert(next_set(r, 0) == y);
    assert((((((1u32 << h) - 1) as u32) << y) >> y) == ((1u32 << h) - 1) as u32) by (bit_vector)
        requires
            1 <= h,
            y + h <= 16,
    ;
    assert(r >> y == m);
    assert(m & m == m) by (bit_vector);
    assert(r & !r == 0) by (bit_vector);
    assert(((1u32 << h) - 1) as u32 != 0) by (bit_vector)
        requires
            1 <= h <= 16,
    ;
    assert((0u32 >> y) & m == 0) by (bit_vector);
    // the run is h bits long: the complement of the mask has its lowest set bit at h
    let c = !m;
    assert forall|j: u32| j < h implies !bit(c, j as int) by {
        assert(((!(((1u32 << h) - 1) as u32)) >> j) & 1 == 0) by (bit_vector)
            requires
                j < h,
                1 <= h <= 16,
        ;
    }
    assert(bit(c, h as int)) by {
        assert(((!(((1u32 << h) - 1) as u32)) >> h) & 1 == 1) by (bit_vector)
            requires
                1 <= h <= 16,
        ;
    }
    lemma_trailing_zeros_is(c, h);
    assert(run_length(r, y) == h);
    if y + h < 16 {
        let k = (y + h) as u32;
        assert((((((1u32 << h) - 1) as u32) << y) >> k) == 0) by (bit_vector)
            requires
                1 <= h,
                y + h < 16,
                k == y + h,
        ;
        axiom_u32_trailing_zeros(0u32);
        assert(u32_trailing_zeros(r >> k) == 32);
    }
}

/// A plane whose set bits are exactly the rectangle of `w` rows from row
/// `x` and `h` bits from bit `y`.
pub open spec fn is_rectangle(data: Seq<u32>, x: int, y: u32, w: int, h: u32) -> bool {
    &&& data.len() == 16
    &&& 0 <= x
    &&& 1 <= w
    &&& x + w <= 16
    &&& 1 <= h
    &&& y + h <= 16
    &&& forall|r: int|
        0 <= r < 16 ==> #[trigger] data[r] == if x <= r < x + w {
            run_word(y, h)
        } else {
            0u32
        }
}

/// An empty row yields no quad and leaves the plane as it is.
pub proof fn lemma_empty_row(data: Seq<u32>, row: int)
    requires
        0 <= row < data.len(),
        data[row] == 0,
    ensures
        mesh_row(data, row, 0).0 == Seq::<GreedyQuad>::empty(),
        mesh_row(data, row, 0).1 == data,
{
    axiom_u32_trailing_zeros(0u32);
    assert(0u32 >> 0u32 == 0u32) by (bit_vector);
}

/// The rows of a plane that are all empty from `row` on yield no quad.
pub proof fn lemma_empty_rows(data: Seq<u32>, row: int)
    requires
        0 <= row,
        forall|r: int| row <= r < data.len() ==> #[trigger] data[r] == 0,
    ensures
        mesh_rows(data, row) == Seq::<GreedyQuad>::empty(),
    decreases data.len() - row,
{
    if row < data.len() {
        lemma_empty_row(data, row);
        lemma_empty_rows(data, row + 1);
        assert(Seq::<GreedyQuad>::empty() + Seq::<GreedyQuad>::empty() =~= Seq::<GreedyQuad>::empty());
    }
}

/// Rows that are empty are passed over.
pub proof fn lemma_skip_empty_rows(data: Seq<u32>, row: int, until: int)
    requires
        0 <= row <= until <= data.len(),
        forall|r: int| row <= r < until ==> #[trigger] data[r] == 0,
    ensures
        mesh_rows(data, row) == mesh_rows(data, until),
    decreases until - row,
{
    if row < until {
        lemma_empty_row(data, row);
        lemma_skip_empty_rows(data, row + 1, until);
        assert(Seq::<GreedyQuad>::empty() + mesh_rows(data, row + 1) =~= mesh_rows(data, row + 1));
    }
}

/// A run that every following row of a rectangle holds grows over all of them.
proof fn lemma_grow_rectangle(data: Seq<u32>, x: int, y: u32, w: int, h: u32, k: int)
    requires
        is_rectangle(data, x, y, w, h),
        1 <= k <= w,
    ensures
        grow_width(data, x, y, low_mask(h), k) == w,
    decreases w - k,
{
    lemma_run_word(y, h);
    if k < w {
        assert(data[x + k] == run_word(y, h));
        lemma_grow_rectangle(data, x, y, w, h, k + 1);
    } else {
        if x + w < 16 {
            assert(data[x + w] == 0u32);
        }
    }
}

/// A filled rectangle is merged into exactly one quad: whatever its
/// size, a plane whose faces form a rectangle yields the one quad that
/// covers it.
pub proof fn lemma_rectangle_is_one_quad(data: Seq<u32>, x: int, y: u32, w: int, h: u32)
    requires
        is_rectangle(data, x, y, w, h),
    ensures
        greedy_quads(data) == seq![GreedyQuad { x: x as u32, y, w: w as u32, h }],
{
    lemma_run_word(y, h);
    lemma_skip_empty_rows(data, 0, x);
    let r = run_word(y, h);
    assert(data[x] == r);
    let start = next_set(data[x], 0);
    assert(start == y);
    let hmask = low_mask(h);
    lemma_grow_rectangle(data, x, y, w, h, 1);
    let cleared = clear_rows(data, x, w, hmask << y);
    assert forall|i: int| 0 <= i < 16 implies #[trigger] cleared[i] == if i == x {
        r
    } else {
        0u32
    } by {
        if x < i < x + w {
            assert(data[i] == r);
            assert(r & !r == 0);
        } else {
            assert(data[i] == if i == x {
                r
            } else {
                0u32
            });
        }
    }
    let quad = GreedyQuad { x: x as u32, y, w: w as u32, h };
    let rest = mesh_row(cleared, x, (y + h) as u32);
    assert(rest.0 =~= Seq::<GreedyQuad>::empty() && rest.1 == cleared) by {
        if y + h < 16 {
            assert(cleared[x] == r);
        }
    }
    let here = mesh_row(data, x, 0);
    assert(here.0 =~= seq![quad]);
    assert(here.1 == cleared);
    // what is left of the rectangle's first row yields nothing more
    let after = mesh_rows(cleared, x + 1);
    assert(after == Seq::<GreedyQuad>::empty()) by {
        assert forall|i: int| x + 1 <= i < cleared.len() implies #[trigger] cleared[i] == 0 by {}
        lemma_empty_rows(cleared, x + 1);
    }
    assert(mesh_rows(data, x) =~= seq![quad]);
}

/// Whether a quad covers the cell at row `r`, bit `c`.
pub open spec fn covers(q: GreedyQuad, r: int, c: int) -> bool {
    q.x <= r < q.x + q.w && q.y <= c < q.y + q.h
}

/// Every bit of a run is set.
pub proof fn lemma_run_bits(x: u32, start: u32, j: u32)
    requires
        start < 16,
        j < run_length(x, start),
        run_length(x, start) <= 32 - start,
    ensures
        bit(x, start + j),
{
    let v = x >> start;
    axiom_u32_trailing_zeros(!v);
    assert(((!v) >> j) & 1 == 0);
    let k = (start + j) as u32;
    assert((x >> k) & 1 == 1) by (bit_vector)
        requires
            ((!(x >> start)) >> j) & 1 == 0,
            k == start + j,
            k < 32,
            j < 32,
            start < 16,
    ;
}

/// A row that holds the whole mask of a run holds every bit of the run.
pub proof fn lemma_mask_held(x: u32, start: u32, h: u32, j: u32)
    requires
        start < 16,
        1 <= h,
        start + h <= 32,
        j < h,
        (x >> start) & low_mask(h) == low_mask(h),
    ensures
        bit(x, start + j),
{
    let k = (start + j) as u32;
    if h >= 32 {
        assert((x >> k) & 1 == 1) by (bit_vector)
            requires
                (x >> start) & !0u32 == !0u32,
                start == 0,
                k == start + j,
                j < 32,
        ;
    } else {
        assert((x >> k) & 1 == 1) by (bit_vector)
            requires
                (x >> start) & (((1u32 << h) - 1) as u32) == ((1u32 << h) - 1) as u32,
                h < 32,
                j < h,
                k == start + j,
                start + h <= 32,
        ;
    }
}

/// Clearing bits sets none.
pub proof fn lemma_cleared_bit(x: u32, mask: u32, c: int)
    requires
        bit(x & !mask, c),
    ensures
        bit(x, c),
{
    let k = c as u32;
    assert(((x & !mask) >> k) & 1 == 1 ==> (x >> k) & 1 == 1) by (bit_vector);
}

/// Every row over which a run has grown holds the run.
pub proof fn lemma_grown_rows_hold(data: Seq<u32>, row: int, y: u32, hmask: u32, w: int, k: int)
    requires
        0 <= row,
        1 <= w <= k < grow_width(data, row, y, hmask, w),
    ensures
        row + k < data.len(),
        row + k < 16,
        (data[row + k] >> y) & hmask == hmask,
    decreases 16 - (row + w),
{
    if 0 <= row && 1 <= w && row + w < 16 && row + w < data.len() && (data[row + w] >> y) & hmask
        == hmask {
        if k > w {
            lemma_grown_rows_hold(data, row, y, hmask, w + 1, k);
        }
    }
}

/// The quads of a row start in that row and cover only set bits, and
/// what is left of the plane has no bit that the plane had not.
pub proof fn lemma_mesh_row_covers(data: Seq<u32>, row: int, y: u32)
    requires
        0 <= row < data.len() <= u32::MAX,
    ensures
        mesh_row(data, row, y).1.len() == data.len(),
        forall|r: int, c: int|
            0 <= r < data.len() && #[trigger] bit(mesh_row(data, row, y).1[r], c) ==> bit(data[r], c),
        forall|k: int, r: int, c: int|
            0 <= k < mesh_row(data, row, y).0.len() && #[trigger] covers(
                mesh_row(data, row, y).0[k],
                r,
                c,
            ) ==> 0 <= r < data.len() && bit(data[r], c),
    decreases 32 - y,
{
    let result = mesh_row(data, row, y);
    lemma_mesh_row_len(data, row, y);
    if y < 16 {
        let start = next_set(data[row], y);
        if start < 16 {
            lemma_run_positive(data[row], y);
            let h = run_length(data[row], start);
            let hmask = low_mask(h);
            let w = grow_width(data, row, start, hmask, 1);
            let mask = hmask << start;
            let cleared = clear_rows(data, row, w, mask);
            let quad = GreedyQuad { x: row as u32, y: start, w: w as u32, h };
            let rest = mesh_row(cleared, row, (start + h) as u32);
            lemma_mesh_row_covers(cleared, row, (start + h) as u32);
            lemma_grow_width_bounds(data, row, start, hmask, 1);
            assert forall|r: int, c: int| 0 <= r < data.len() && #[trigger] bit(cleared[r], c) implies bit(
                data[r],
                c,
            ) by {
                if row < r < row + w {
                    lemma_cleared_bit(data[r], mask, c);
                }
            }
            assert forall|r: int, c: int| 0 <= r < data.len() && #[trigger] bit(result.1[r], c) implies bit(
                data[r],
                c,
            ) by {
                assert(result.1 == rest.1);
                assert(bit(cleared[r], c));
            }
            assert forall|k: int, r: int, c: int|
                0 <= k < result.0.len() && #[trigger] covers(result.0[k], r, c) implies 0 <= r
                < data.len() && bit(data[r], c) by {
                if k == 0 {
                    assert(result.0[0] == quad);
                    assert(quad.x == row && quad.w == w);
                    let j = (c - start) as u32;
                    if r == row {
                        lemma_run_bits(data[row], start, j);
                    } else {
                        lemma_grown_rows_hold(data, row, start, hmask, 1, r - row);
                        lemma_mask_held(data[r], start, h, j);
                    }
                } else {
                    assert(result.0[k] == rest.0[k - 1]);
                    assert(covers(rest.0[k - 1], r, c));
                    assert(bit(cleared[r], c));
                }
            }
        }
    }
}

/// A run grows over at most the rows that are there, and at least the one it starts in.
pub proof fn lemma_grow_width_bounds(data: Seq<u32>, row: int, y: u32, hmask: u32, w: int)
    requires
        0 <= row < data.len(),
        1 <= w,
        row + w <= data.len(),
    ensures
        w <= grow_width(data, row, y, hmask, w),
        row + grow_width(data, row, y, hmask, w) <= data.len(),
        grow_width(data, row, y, hmask, w) <= 16 || grow_width(data, row, y, hmask, w) == w,
    decreases 16 - (row + w),
{
    if 0 <= row && 1 <= w && row + w < 16 && row + w < data.len() && (data[row + w] >> y) & hmask
        == hmask {
        lemma_grow_width_bounds(data, row, y, hmask, w + 1);
    }
}

/// Every quad of the rows from `row` on covers only set bits.
pub proof fn lemma_mesh_rows_cover(data: Seq<u32>, row: int)
    requires
        0 <= row,
        data.len() <= u32::MAX,
    ensures
        forall|k: int, r: int, c: int|
            0 <= k < mesh_rows(data, row).len() && #[trigger] covers(mesh_rows(data, row)[k], r, c)
                ==> 0 <= r < data.len() && bit(data[r], c),
    decreases data.len() - row,
{
    if row < data.len() {
        let here = mesh_row(data, row, 0);
        lemma_mesh_row_covers(data, row, 0);
        lemma_mesh_rows_cover(here.1, row + 1);
        let after = mesh_rows(here.1, row + 1);
        let all = mesh_rows(data, row);
        assert forall|k: int, r: int, c: int|
            0 <= k < all.len() && #[trigger] covers(all[k], r, c) implies 0 <= r < data.len() && bit(
            data[r],
            c,
        ) by {
            if k < here.0.len() {
                assert(all[k] == here.0[k]);
            } else {
                assert(all[k] == after[k - here.0.len()]);
                assert(covers(after[k - here.0.len()], r, c));
                assert(bit(here.1[r], c));
            }
        }
    }
}

/// Greedy merging is sound: every cell that a quad covers is a set bit
/// of the plane. No quad reaches over a face that is not there.
pub proof fn lemma_quads_cover_faces(data: Seq<u32>, k: int, r: int, c: int)
    requires
        data.len() <= u32::MAX,
        0 <= k < greedy_quads(data).len(),
        covers(greedy_quads(data)[k], r, c),
    ensures
        0 <= r < data.len(),
        bit(data[r], c),
{
    lemma_mesh_rows_cover(data, 0);
}

/// Bit `c` of the mask of a run is set exactly inside the run.
pub proof fn lemma_mask_bit(start: u32, h: u32, c: u32)
    requires
        start < 16,
        1 <= h,
        start + h <= 32,
        c < 32,
    ensures
        bit(low_mask(h) << start, c as int) == (start <= c < start + h),
{
    if h >= 32 {
        assert(((!0u32 << start) >> c) & 1 == 1) by (bit_vector)
            requires
                start == 0,
                c < 32,
        ;
    } else {
        assert(((((1u32 << h) - 1) as u32) << start) >> c & 1 == 1 <==> (start <= c && c < start + h))
            by (bit_vector)
            requires
                1 <= h < 32,
                start < 16,
                start + h <= 32,
                c < 32,
        ;
    }
}

/// A bit that clearing a mask takes away lies in the mask, and a bit of
/// the mask is gone afterwards.
pub proof fn lemma_clear_takes_mask(x: u32, mask: u32, c: int)
    requires
        0 <= c < 32,
    ensures
        bit(x, c) && !bit(x & !mask, c) ==> bit(mask, c),
        bit(mask, c) ==> !bit(x & !mask, c),
{
    let k = c as u32;
    assert(((x >> k) & 1 == 1 && ((x & !mask) >> k) & 1 != 1) ==> (mask >> k) & 1 == 1)
        by (bit_vector);
    assert((mask >> k) & 1 == 1 ==> ((x & !mask) >> k) & 1 != 1) by (bit_vector);
}

/// Between a bit and the next set bit at or above it there is no set bit.
pub proof fn lemma_next_set_skips(x: u32, y: u32, c: u32)
    requires
        y < 16,
        y <= c < 32,
        c < next_set(x, y),
    ensures
        !bit(x, c as int),
{
    let v = x >> y;
    axiom_u32_trailing_zeros(v);
    let j = (c - y) as u32;
    assert((v >> j) & 1 == 0);
    assert((x >> c) & 1 == 0) by (bit_vector)
        requires
            ((x >> y) >> j) & 1 == 0,
            c == y + j,
            c < 32,
    ;
}

/// The quads of a row lie in that row, at or above the bit from which the
/// row was scanned; they cover every set bit of the row from there up to
/// bit 16, and every bit that was cleared in a later row; no two of them
/// overlap; and what they cover of later rows is cleared.
pub proof fn lemma_mesh_row_partition(data: Seq<u32>, row: int, y: u32)
    requires
        0 <= row < data.len() <= u32::MAX,
    ensures
        mesh_row(data, row, y).1.len() == data.len(),
        mesh_row(data, row, y).1[row] == data[row],
        forall|k: int|
            0 <= k < mesh_row(data, row, y).0.len() ==> (#[trigger] mesh_row(data, row, y).0[k]).x
                == row && mesh_row(data, row, y).0[k].y >= y,
        forall|c: int|
            y <= c < 16 && bit(data[row], c) ==> exists|k: int|
                0 <= k < mesh_row(data, row, y).0.len() && #[trigger] covers(
                    mesh_row(data, row, y).0[k],
                    row,
                    c,
                ),
        forall|r: int, c: int|
            0 <= r < data.len() && bit(data[r], c) && !#[trigger] bit(mesh_row(data, row, y).1[r], c)
                ==> exists|k: int|
                0 <= k < mesh_row(data, row, y).0.len() && #[trigger] covers(
                    mesh_row(data, row, y).0[k],
                    r,
                    c,
                ),
        forall|k: int, r: int, c: int|
            0 <= k < mesh_row(data, row, y).0.len() && r != row && #[trigger] covers(
                mesh_row(data, row, y).0[k],
                r,
                c,
            ) ==> !bit(mesh_row(data, row, y).1[r], c),
        forall|j: int, k: int, r: int, c: int|
            0 <= j < k < mesh_row(data, row, y).0.len() && #[trigger] covers(
                mesh_row(data, row, y).0[j],
                r,
                c,
            ) ==> !#[trigger] covers(mesh_row(data, row, y).0[k], r, c),
    decreases 32 - y,
{
    let result = mesh_row(data, row, y);
    lemma_mesh_row_len(data, row, y);
    if y < 16 {
        let start = next_set(data[row], y);
        if start < 16 {
            lemma_run_positive(data[row], y);
            let h = run_length(data[row], start);
            let hmask = low_mask(h);
            let w = grow_width(data, row, start, hmask, 1);
            let mask = hmask << start;
            let cleared = clear_rows(data, row, w, mask);
            let quad = GreedyQuad { x: row as u32, y: start, w: w as u32, h };
            let next = (start + h) as u32;
            let rest = mesh_row(cleared, row, next);
            lemma_mesh_row_partition(cleared, row, next);
            lemma_mesh_row_covers(cleared, row, next);
            lemma_grow_width_bounds(data, row, start, hmask, 1);
            assert(result.0 =~= seq![quad] + rest.0);
            assert(result.1 == rest.1);
            assert(quad.x == row && quad.w == w);
            assert(cleared[row] == data[row]);
            assert forall|k: int| 0 <= k < result.0.len() implies (#[trigger] result.0[k]).x == row
                && result.0[k].y >= y by {
                if k > 0 {
                    assert(result.0[k] == rest.0[k - 1]);
                }
            }
            assert forall|c: int| y <= c < 16 && bit(data[row], c) implies exists|k: int|
                0 <= k < result.0.len() && #[trigger] covers(result.0[k], row, c) by {
                if c < start {
                    lemma_next_set_skips(data[row], y, c as u32);
                } else if c < start + h {
                    assert(covers(result.0[0], row, c));
                } else {
                    let k = choose|k: int| 0 <= k < rest.0.len() && #[trigger] covers(rest.0[k], row, c);
                    assert(result.0[k + 1] == rest.0[k]);
                    assert(covers(result.0[k + 1], row, c));
                }
            }
            assert forall|r: int, c: int|
                0 <= r < data.len() && bit(data[r], c) && !#[trigger] bit(
                    result.1[r],
                    c,
                ) implies exists|k: int|
                0 <= k < result.0.len() && #[trigger] covers(result.0[k], r, c) by {
                if bit(cleared[r], c) {
                    let k = choose|k: int| 0 <= k < rest.0.len() && #[trigger] covers(rest.0[k], r, c);
                    assert(result.0[k + 1] == rest.0[k]);
                    assert(covers(result.0[k + 1], r, c));
                } else {
                    assert(row < r < row + w);
                    lemma_clear_takes_mask(data[r], mask, c);
                    lemma_mask_bit(start, h, c as u32);
                    assert(covers(result.0[0], r, c));
                }
            }
            assert forall|k: int, r: int, c: int|
                0 <= k < result.0.len() && r != row && #[trigger] covers(
                    result.0[k],
                    r,
                    c,
                ) implies !bit(result.1[r], c) by {
                if k == 0 {
                    lemma_mask_bit(start, h, c as u32);
                    lemma_clear_takes_mask(data[r], mask, c);
                    assert(!bit(cleared[r], c));
                    if bit(rest.1[r], c) {
                        assert(bit(cleared[r], c));
                    }
                } else {
                    assert(result.0[k] == rest.0[k - 1]);
                    assert(covers(rest.0[k - 1], r, c));
                }
            }
            assert forall|j: int, k: int, r: int, c: int|
                0 <= j < k < result.0.len() && #[trigger] covers(
                    result.0[j],
                    r,
                    c,
                ) implies !#[trigger] covers(result.0[k], r, c) by {
                assert(result.0[k] == rest.0[k - 1]);
                if j == 0 {
                    if covers(rest.0[k - 1], r, c) {
                        if r == row {
                            assert(rest.0[k - 1].y >= next);
                        } else {
                            lemma_mask_bit(start, h, c as u32);
                            lemma_clear_takes_mask(data[r], mask, c);
                            assert(!bit(cleared[r], c));
                            assert(bit(cleared[r], c));
                        }
                    }
                } else {
                    assert(result.0[j] == rest.0[j - 1]);
                    assert(covers(rest.0[j - 1], r, c));
                }
            }
        } else {
            assert forall|c: int| y <= c < 16 && bit(data[row], c) implies exists|k: int|
                0 <= k < result.0.len() && #[trigger] covers(result.0[k], row, c) by {
                lemma_next_set_skips(data[row], y, c as u32);
            }
        }
    }
}

/// The quads of the rows from `row` on cover every set bit below bit 16
/// of those rows, and no two of them overlap.
pub proof fn lemma_mesh_rows_partition(data: Seq<u32>, row: int)
    requires
        0 <= row,
        data.len() <= u32::MAX,
    ensures
        forall|k: int| 0 <= k < mesh_rows(data, row).len() ==> (#[trigger] mesh_rows(data, row)[k]).x >= row,
        forall|r: int, c: int|
            row <= r < data.len() && 0 <= c < 16 && #[trigger] bit(data[r], c) ==> exists|k: int|
                0 <= k < mesh_rows(data, row).len() && #[trigger] covers(mesh_rows(data, row)[k], r, c),
        forall|j: int, k: int, r: int, c: int|
            0 <= j < k < mesh_rows(data, row).len() && #[trigger] covers(mesh_rows(data, row)[j], r, c)
                ==> !#[trigger] covers(mesh_rows(data, row)[k], r, c),
    decreases data.len() - row,
{
    if row < data.len() {
        let here = mesh_row(data, row, 0);
        lemma_mesh_row_partition(data, row, 0);
        lemma_mesh_rows_partition(here.1, row + 1);
        lemma_mesh_rows_cover(here.1, row + 1);
        let after = mesh_rows(here.1, row + 1);
        let all = mesh_rows(data, row);
        let n = here.0.len() as int;
        assert(all =~= here.0 + after);
        assert forall|k: int| 0 <= k < all.len() implies (#[trigger] all[k]).x >= row by {
            if k >= n {
                assert(all[k] == after[k - n]);
            }
        }
        assert forall|r: int, c: int|
            row <= r < data.len() && 0 <= c < 16 && #[trigger] bit(data[r], c) implies exists|k: int|
            0 <= k < all.len() && #[trigger] covers(all[k], r, c) by {
            if r == row {
                let k = choose|k: int| 0 <= k < here.0.len() && #[trigger] covers(here.0[k], row, c);
                assert(all[k] == here.0[k]);
            } else if bit(here.1[r], c) {
                let k = choose|k: int| 0 <= k < after.len() && #[trigger] covers(after[k], r, c);
                assert(all[k + n] == after[k]);
                assert(covers(all[k + n], r, c));
            } else {
                let k = choose|k: int| 0 <= k < here.0.len() && #[trigger] covers(here.0[k], r, c);
                assert(all[k] == here.0[k]);
            }
        }
        assert forall|j: int, k: int, r: int, c: int|
            0 <= j < k < all.len() && #[trigger] covers(all[j], r, c) implies !#[trigger] covers(
            all[k],
            r,
            c,
        ) by {
            if k < n {
                assert(all[j] == here.0[j] && all[k] == here.0[k]);
            } else if j >= n {
                assert(all[j] == after[j - n] && all[k] == after[k - n]);
                assert(covers(after[j - n], r, c));
            } else {
                assert(all[j] == here.0[j] && all[k] == after[k - n]);
                if covers(after[k - n], r, c) {
                    assert(after[k - n].x >= row + 1);
                    assert(r != row);
                    assert(!bit(here.1[r], c));
                    assert(bit(here.1[r], c));
                }
            }
        }
    }
}

/// Greedy merging partitions the faces of a plane: every set bit below
/// bit 16 is covered by a quad, and no cell is covered by two quads.
pub proof fn lemma_quads_partition_faces(data: Seq<u32>)
    requires
        data.len() <= u32::MAX,
    ensures
        forall|r: int, c: int|
            0 <= r < data.len() && 0 <= c < 16 && #[trigger] bit(data[r], c) ==> exists|k: int|
                0 <= k < greedy_quads(data).len() && #[trigger] covers(greedy_quads(data)[k], r, c),
        forall|j: int, k: int, r: int, c: int|
            0 <= j < k < greedy_quads(data).len() && #[trigger] covers(greedy_quads(data)[j], r, c)
                ==> !#[trigger] covers(greedy_quads(data)[k], r, c),
{
    lemma_mesh_rows_partition(data, 0);
    let all = mesh_rows(data, 0);
    assert(greedy_quads(data) == all);
    assert forall|r: int, c: int|
        0 <= r < data.len() && 0 <= c < 16 && #[trigger] bit(data[r], c) implies exists|k: int|
        0 <= k < greedy_quads(data).len() && #[trigger] covers(greedy_quads(data)[k], r, c) by {
        let k = choose|k: int| 0 <= k < all.len() && #[trigger] covers(all[k], r, c);
        assert(covers(greedy_quads(data)[k], r, c));
    }
}

} // verus!
