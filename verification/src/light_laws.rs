use vstd::prelude::*;
use crate::blocks::{Block, Blocks, fresh_block};
use crate::chunk::{ChunkView, cell_index, chunk_key, lemma_cell_index};
use crate::light_measure::{world_measure, lemma_world_measure_nonnegative};
use crate::lighting::{
    DimAction,
    DimNode,
    broken_light,
    dim_action,
    lemma_dim_visit,
    lemma_queue_weight_append,
    lemma_queue_weight_nonnegative,
    queue_weight,
    dim_flood,
    dim_visit,
    flood_from_broken,
    flood_from_placed,
    max_neighbor_light,
    raise_visit,
    raise_flood,
    raised_light,
    neighbor,
    flood_column,
    flood_columns,
    flood_chunk,
    column_top,
    lemma_with_sunlight,
    lemma_raise_visit,
};
use crate::vector::{Vector2, Vector3};
use crate::world::{block_at, chunk_at, sunlight_at, with_block, with_sunlight, world_wf};

verus! {

/// World `b` arises from world `a` by lighting blocks up: the same blocks
/// are there, of the same kinds, none holds less sunlight, and the blocks
/// that stop light hold the sunlight they held.
pub open spec fn brightened(a: Map<u32, ChunkView>, b: Map<u32, ChunkView>) -> bool {
    forall|p: Vector3|
        match #[trigger] block_at(b, p) {
            Some(y) => match block_at(a, p) {
                Some(x) => {
                    &&& y.kind == x.kind
                    &&& y.sunlight_intensity >= x.sunlight_intensity
                    &&& !x.kind.transparent_spec() ==> y.sunlight_intensity == x.sunlight_intensity
                },
                None => false,
            },
            None => block_at(a, p).is_none(),
        }
}

/// World `b` arises from world `a` by taking light away: the same blocks
/// are there, of the same kinds, and none holds more sunlight.
pub open spec fn dimmed(a: Map<u32, ChunkView>, b: Map<u32, ChunkView>) -> bool {
    forall|p: Vector3|
        match #[trigger] block_at(b, p) {
            Some(y) => match block_at(a, p) {
                Some(x) => y.kind == x.kind && y.sunlight_intensity <= x.sunlight_intensity,
                None => false,
            },
            None => block_at(a, p).is_none(),
        }
}

/// In a well-formed world every block holds at most full sunlight.
pub proof fn lemma_light_bounded(w: Map<u32, ChunkView>, p: Vector3)
    requires
        world_wf(w),
    ensures
        sunlight_at(w, p) <= 15,
        block_at(w, p).is_some() ==> block_at(w, p).unwrap().wf(),
{
    if block_at(w, p).is_some() {
        let c = chunk_at(w, p.x as int, p.z as int).unwrap();
        lemma_cell_index(p.x as int % 16, p.y as int, p.z as int % 16);
        assert(c.cells[cell_index(p.x as int % 16, p.y as int, p.z as int % 16)].wf());
    }
}

/// Brightening twice is brightening.
pub proof fn lemma_brightened_transitive(
    a: Map<u32, ChunkView>,
    b: Map<u32, ChunkView>,
    c: Map<u32, ChunkView>,
)
    requires
        brightened(a, b),
        brightened(b, c),
    ensures
        brightened(a, c),
{
    assert forall|p: Vector3|
        match #[trigger] block_at(c, p) {
            Some(y) => match block_at(a, p) {
                Some(x) => y.kind == x.kind && y.sunlight_intensity >= x.sunlight_intensity,
                None => false,
            },
            None => block_at(a, p).is_none(),
        } by {
        let mid = block_at(b, p);
    }
}

/// Raising the light of one block that lets light through brightens the world.
pub proof fn lemma_with_sunlight_brightens(w: Map<u32, ChunkView>, p: Vector3, v: u8)
    requires
        world_wf(w),
        v <= 15,
        sunlight_at(w, p) <= v,
        block_at(w, p).is_some() ==> block_at(w, p).unwrap().kind.transparent_spec(),
    ensures
        brightened(w, with_sunlight(w, p, v)),
        world_wf(with_sunlight(w, p, v)),
        block_at(w, p).is_some() ==> sunlight_at(with_sunlight(w, p, v), p) == v,
{
    lemma_with_sunlight(w, p, v);
}

/// A lit block that visits its neighbours brightens the world.
pub proof fn lemma_raise_visit_brightens(w: Map<u32, ChunkView>, pos: Vector3, intensity: u8, i: int)
    requires
        world_wf(w),
        intensity <= 15,
    ensures
        brightened(w, raise_visit(w, pos, intensity, i).0),
        world_wf(raise_visit(w, pos, intensity, i).0),
    decreases 6 - i,
{
    if 0 <= i < 6 {
        match neighbor(pos, i) {
            Some(n) => match raised_light(w, pos, intensity, n) {
                Some(v) => {
                    let w2 = with_sunlight(w, n, v);
                    lemma_with_sunlight_brightens(w, n, v);
                    lemma_raise_visit_brightens(w2, pos, intensity, i + 1);
                    lemma_brightened_transitive(w, w2, raise_visit(w2, pos, intensity, i + 1).0);
                },
                None => {
                    lemma_raise_visit_brightens(w, pos, intensity, i + 1);
                },
            },
            None => {
                lemma_raise_visit_brightens(w, pos, intensity, i + 1);
            },
        }
    }
}

/// A raising wave only ever adds light: it brightens the world, and the
/// world stays well formed.
pub proof fn lemma_raise_flood_brightens(w: Map<u32, ChunkView>, queue: Seq<Vector3>)
    requires
        world_wf(w),
    ensures
        brightened(w, raise_flood(w, queue).world),
        world_wf(raise_flood(w, queue).world),
    decreases world_measure(w, true) + queue.len(),
{
    if queue.len() > 0 {
        let intensity = sunlight_at(w, queue[0]);
        lemma_light_bounded(w, queue[0]);
        let step = raise_visit(w, queue[0], intensity, 0);
        lemma_raise_visit(w, queue[0], intensity, 0);
        lemma_raise_visit_brightens(w, queue[0], intensity, 0);
        lemma_world_measure_nonnegative(step.0, 0x1_0000_0000, true);
        lemma_raise_flood_brightens(step.0, queue.skip(1) + step.1);
        lemma_brightened_transitive(w, step.0, raise_flood(step.0, queue.skip(1) + step.1).world);
    }
}

/// Whether there is a block at `p` that lets light through.
pub open spec fn lets_light(w: Map<u32, ChunkView>, p: Vector3) -> bool {
    match block_at(w, p) {
        Some(b) => b.kind.transparent_spec(),
        None => false,
    }
}

/// Whether the column of `top` is open from `top` down to height `h`:
/// every block in between is there and lets light through.
pub open spec fn open_between(w: Map<u32, ChunkView>, top: Vector3, h: int) -> bool {
    forall|y: int|
        h <= y <= top.y ==> #[trigger] lets_light(w, Vector3 { x: top.x, y: y as i32, z: top.z })
}

/// Lighting a column from `p` downwards brightens the world and leaves
/// full sunlight in every block of the column down to which the column is
/// open from `p`.
pub proof fn lemma_flood_column(w: Map<u32, ChunkView>, p: Vector3)
    requires
        world_wf(w),
        p.y <= 255,
    ensures
        world_wf(flood_column(w, p)),
        brightened(w, flood_column(w, p)),
        forall|h: int|
            0 <= h <= p.y && open_between(w, p, h) ==> #[trigger] sunlight_at(
                flood_column(w, p),
                Vector3 { x: p.x, y: h as i32, z: p.z },
            ) == 15,
    decreases p.y + 1,
{
    let result = flood_column(w, p);
    if p.y < 0 {
    } else {
        match block_at(w, p) {
            Some(b) => {
                if b.kind.transparent_spec() {
                    let lit = with_sunlight(w, p, 15);
                    lemma_light_bounded(w, p);
                    lemma_with_sunlight_brightens(w, p, 15);
                    let below = Vector3 { x: p.x, y: (p.y - 1) as i32, z: p.z };
                    let falls_on = match block_at(lit, below) {
                        Some(floor) => floor.kind.transparent_spec(),
                        None => true,
                    };
                    if falls_on {
                        lemma_flood_column(lit, below);
                        lemma_brightened_transitive(w, lit, result);
                    } else {
                        lemma_raise_flood_brightens(lit, seq![p]);
                        lemma_brightened_transitive(w, lit, result);
                    }
                    assert forall|h: int| 0 <= h <= p.y && open_between(w, p, h) implies #[trigger] sunlight_at(
                        result,
                        Vector3 { x: p.x, y: h as i32, z: p.z },
                    ) == 15 by {
                        let q = Vector3 { x: p.x, y: h as i32, z: p.z };
                        lemma_light_bounded(result, q);
                        if h == p.y {
                            assert(q == p);
                            assert(sunlight_at(lit, p) == 15);
                            let seen = block_at(result, p);
                        } else {
                            if falls_on {
                                assert(open_between(lit, below, h)) by {
                                    assert forall|y: int| h <= y <= below.y implies #[trigger] lets_light(
                                        lit,
                                        Vector3 { x: below.x, y: y as i32, z: below.z },
                                    ) by {
                                        let at = Vector3 { x: p.x, y: y as i32, z: p.z };
                                        assert(lets_light(w, at));
                                        let seen = block_at(lit, at);
                                    }
                                }
                            } else {
                                assert(lets_light(w, Vector3 { x: p.x, y: (p.y - 1) as i32, z: p.z }));
                                let seen = block_at(lit, below);
                                assert(false);
                            }
                        }
                    }
                } else {
                    assert forall|h: int| 0 <= h <= p.y && open_between(w, p, h) implies #[trigger] sunlight_at(
                        result,
                        Vector3 { x: p.x, y: h as i32, z: p.z },
                    ) == 15 by {
                        assert(lets_light(w, Vector3 { x: p.x, y: p.y as int as i32, z: p.z }));
                    }
                }
            },
            None => {
                assert forall|h: int| 0 <= h <= p.y && open_between(w, p, h) implies #[trigger] sunlight_at(
                    result,
                    Vector3 { x: p.x, y: h as i32, z: p.z },
                ) == 15 by {
                    assert(lets_light(w, Vector3 { x: p.x, y: p.y as int as i32, z: p.z }));
                }
            },
        }
    }
}

/// Brightening a world keeps open columns open.
pub proof fn lemma_open_between_kept(a: Map<u32, ChunkView>, b: Map<u32, ChunkView>, top: Vector3, h: int)
    requires
        brightened(a, b),
        open_between(a, top, h),
    ensures
        open_between(b, top, h),
{
    assert forall|y: int| h <= y <= top.y implies #[trigger] lets_light(
        b,
        Vector3 { x: top.x, y: y as i32, z: top.z },
    ) by {
        let at = Vector3 { x: top.x, y: y as i32, z: top.z };
        assert(lets_light(a, at));
        let seen = block_at(b, at);
    }
}

/// Lighting the columns from number `n` on brightens the world and leaves
/// full sunlight in every block of those columns down to which its
/// column is open from the top.
pub proof fn lemma_flood_columns(w: Map<u32, ChunkView>, position: Vector2, n: int)
    requires
        world_wf(w),
        0 <= n,
    ensures
        world_wf(flood_columns(w, position, n)),
        brightened(w, flood_columns(w, position, n)),
        forall|m: int, h: int|
            n <= m < 256 && 0 <= h <= 255 && open_between(w, column_top(position, m), h)
                ==> #[trigger] sunlight_at(
                flood_columns(w, position, n),
                Vector3 {
                    x: column_top(position, m).x,
                    y: h as i32,
                    z: column_top(position, m).z,
                },
            ) == 15,
    decreases 256 - n,
{
    let result = flood_columns(w, position, n);
    if n < 256 {
        let top = column_top(position, n);
        let w1 = flood_column(w, top);
        lemma_flood_column(w, top);
        lemma_flood_columns(w1, position, n + 1);
        lemma_brightened_transitive(w, w1, result);
        assert forall|m: int, h: int|
            n <= m < 256 && 0 <= h <= 255 && open_between(
                w,
                column_top(position, m),
                h,
            ) implies #[trigger] sunlight_at(
            result,
            Vector3 { x: column_top(position, m).x, y: h as i32, z: column_top(position, m).z },
        ) == 15 by {
            let q = Vector3 {
                x: column_top(position, m).x,
                y: h as i32,
                z: column_top(position, m).z,
            };
            if m == n {
                assert(sunlight_at(w1, q) == 15);
                lemma_light_bounded(result, q);
                let seen = block_at(result, q);
            } else {
                lemma_open_between_kept(w, w1, column_top(position, m), h);
            }
        }
    }
}

/// After the first lighting of a chunk, every block of the chunk that
/// lets light through and has only such blocks above it, up to the top of
/// the world, holds full sunlight.
pub proof fn lemma_initial_flood_lights_sky(w: Map<u32, ChunkView>, chunk_index: u32, p: Vector3)
    requires
        world_wf(w),
        w.contains_key(chunk_index),
        w[chunk_index].position.x == p.x as int / 16,
        w[chunk_index].position.y == p.z as int / 16,
        0 <= p.y <= 255,
        open_between(w, Vector3 { x: p.x, y: 255, z: p.z }, p.y as int),
    ensures
        sunlight_at(flood_chunk(w, chunk_index), p) == 15,
        world_wf(flood_chunk(w, chunk_index)),
        brightened(w, flood_chunk(w, chunk_index)),
{
    let position = w[chunk_index].position;
    let lx = p.x as int % 16;
    let lz = p.z as int % 16;
    let m = lx * 16 + lz;
    assert(0 <= lx < 16 && 0 <= lz < 16);
    assert(m / 16 == lx && m % 16 == lz);
    assert(p.x as int == 16 * (p.x as int / 16) + lx);
    assert(p.z as int == 16 * (p.z as int / 16) + lz);
    let top = column_top(position, m);
    assert(top.x == p.x && top.z == p.z && top.y == 255);
    assert(top == (Vector3 { x: p.x, y: 255, z: p.z }));
    lemma_flood_columns(w, position, 0);
    let result = flood_columns(w, position, 0);
    assert(result == flood_chunk(w, chunk_index));
    assert(open_between(w, column_top(position, m), p.y as int));
    assert(sunlight_at(
        result,
        Vector3 { x: column_top(position, m).x, y: p.y as int as i32, z: column_top(position, m).z },
    ) == 15);
}

/// Storing a well-formed block keeps the world well formed and changes
/// the block at its position alone.
pub proof fn lemma_with_block(w: Map<u32, ChunkView>, block: Block)
    requires
        world_wf(w),
    ensures
        world_wf(with_block(w, block)),
        forall|q: Vector3|
            #[trigger] block_at(with_block(w, block), q) == if q == block.absolute_position
                && block.wf() && block_at(w, q).is_some() {
                Some(block)
            } else {
                block_at(w, q)
            },
{
    let p = block.absolute_position;
    let w2 = with_block(w, block);
    if block.wf() && block_at(w, p).is_some() {
        let k = chunk_key(p.x as int / 16, p.z as int / 16);
        let c = w[k];
        let i = cell_index(p.x as int % 16, p.y as int, p.z as int % 16);
        lemma_cell_index(p.x as int % 16, p.y as int, p.z as int % 16);
        let c2 = c.with_block(i, block);
        assert(w2 == w.insert(k, c2));
        assert(c.wf());
        assert(c2.wf()) by {
            assert forall|j: int| 0 <= j < 65536 implies (#[trigger] c2.cells[j]).wf()
                && c2.cells[j].absolute_position == crate::chunk::cell_position(c2.position, j) by {
                assert(c.cells[j].wf());
                if j == i {
                    assert(p.x as int == 16 * (p.x as int / 16) + p.x as int % 16);
                    assert(p.z as int == 16 * (p.z as int / 16) + p.z as int % 16);
                }
            }
        }
        assert(world_wf(w2)) by {
            assert forall|kk: u32| w2.contains_key(kk) implies (#[trigger] w2[kk]).wf() && chunk_key(
                w2[kk].position.x as int,
                w2[kk].position.y as int,
            ) == kk by {
                if kk != k {
                    assert(w[kk].wf());
                }
            }
        }
        assert forall|q: Vector3|
            #[trigger] block_at(w2, q) == if q == p {
                Some(block)
            } else {
                block_at(w, q)
            } by {
            if 0 <= q.y <= 255 {
                let kq = chunk_key(q.x as int / 16, q.z as int / 16);
                if kq == k && chunk_at(w, q.x as int, q.z as int).is_some() {
                    lemma_cell_index(q.x as int % 16, q.y as int, q.z as int % 16);
                    let j = cell_index(q.x as int % 16, q.y as int, q.z as int % 16);
                    if j == i {
                        assert(q.x as int % 16 == p.x as int % 16);
                        assert(q.z as int % 16 == p.z as int % 16);
                        assert(q.x as int / 16 == p.x as int / 16);
                        assert(q == p);
                    }
                }
            }
        }
    } else {
        assert(w2 == w);
    }
}

/// Whether the block at `p` and its six neighbours hold no sunlight.
pub open spec fn dark_around(w: Map<u32, ChunkView>, p: Vector3) -> bool {
    &&& sunlight_at(w, p) == 0
    &&& forall|i: int|
        0 <= i < 6 ==> match #[trigger] neighbor(p, i) {
            Some(n) => sunlight_at(w, n) == 0,
            None => true,
        }
}

/// A block without light lights no neighbour.
proof fn lemma_raise_visit_dark(w: Map<u32, ChunkView>, pos: Vector3, i: int)
    ensures
        raise_visit(w, pos, 0, i) == (w, Seq::<Vector3>::empty()),
    decreases 6 - i,
{
    if 0 <= i < 6 {
        lemma_raise_visit_dark(w, pos, i + 1);
    }
}

/// A raising wave that starts from blocks without light changes nothing.
pub proof fn lemma_dark_wave(w: Map<u32, ChunkView>, queue: Seq<Vector3>)
    requires
        world_wf(w),
        forall|i: int| 0 <= i < queue.len() ==> sunlight_at(w, #[trigger] queue[i]) == 0,
    ensures
        raise_flood(w, queue).world == w,
        raise_flood(w, queue).touched == Seq::<Vector3>::empty(),
    decreases queue.len(),
{
    if queue.len() > 0 {
        lemma_raise_visit_dark(w, queue[0], 0);
        let rest = queue.skip(1);
        assert(rest + Seq::<Vector3>::empty() =~= rest);
        assert forall|i: int| 0 <= i < rest.len() implies sunlight_at(w, #[trigger] rest[i]) == 0 by {
            assert(rest[i] == queue[i + 1]);
        }
        lemma_dark_wave(w, rest);
        assert(Seq::<Vector3>::empty() + Seq::<Vector3>::empty() =~= Seq::<Vector3>::empty());
    }
}

/// A wave of darkness that arrives without light among dark neighbours
/// darkens nothing; the neighbours it keeps as sources are dark.
proof fn lemma_dim_visit_dark(w: Map<u32, ChunkView>, pos: Vector3, i: int)
    requires
        forall|j: int|
            0 <= j < 6 ==> match #[trigger] neighbor(pos, j) {
                Some(n) => sunlight_at(w, n) == 0,
                None => true,
            },
    ensures
        dim_visit(w, pos, 0, i).world == w,
        dim_visit(w, pos, 0, i).queued == Seq::<DimNode>::empty(),
        forall|k: int|
            0 <= k < dim_visit(w, pos, 0, i).sources.len() ==> sunlight_at(
                w,
                #[trigger] dim_visit(w, pos, 0, i).sources[k],
            ) == 0,
    decreases 6 - i,
{
    if 0 <= i < 6 {
        lemma_dim_visit_dark(w, pos, i + 1);
        let seen = neighbor(pos, i);
    }
}

proof fn lemma_max_neighbor_dark(w: Map<u32, ChunkView>, pos: Vector3, i: int)
    requires
        forall|j: int|
            0 <= j < 6 ==> match #[trigger] neighbor(pos, j) {
                Some(n) => sunlight_at(w, n) == 0,
                None => true,
            },
    ensures
        max_neighbor_light(w, pos, i) == 0,
    decreases 6 - i,
{
    if 0 <= i < 6 {
        lemma_max_neighbor_dark(w, pos, i + 1);
        let seen = neighbor(pos, i);
    }
}

/// The neighbours of a block are other blocks.
proof fn lemma_neighbor_differs(p: Vector3, i: int)
    requires
        0 <= i < 6,
    ensures
        neighbor(p, i) != Some(p),
{
}

/// Placing a block where it and its six neighbours hold no sunlight, and
/// breaking it again, leaves every block of the world with the sunlight
/// it held before.
pub proof fn lemma_place_then_break_in_the_dark(w: Map<u32, ChunkView>, block: Block)
    requires
        world_wf(w),
        block.wf(),
        block_at(w, block.absolute_position).is_some(),
        dark_around(w, block.absolute_position),
    ensures
        ({
            let p = block.absolute_position;
            let placed = flood_from_placed(with_block(w, block), p, sunlight_at(w, p)).world;
            let broken = flood_from_broken(with_block(placed, fresh_block(Blocks::AIR, p)), p).world;
            forall|q: Vector3| #[trigger] sunlight_at(broken, q) == sunlight_at(w, q)
        }),
{
    let p = block.absolute_position;
    let stored = with_block(w, block);
    lemma_with_block(w, block);
    let dimmed = with_sunlight(stored, p, 0);
    lemma_with_sunlight(stored, p, 0);
    assert forall|q: Vector3| #[trigger] sunlight_at(dimmed, q) == sunlight_at(w, q) by {
        let a = block_at(stored, q);
        let b = block_at(dimmed, q);
    }
    assert forall|j: int| 0 <= j < 6 implies match #[trigger] neighbor(p, j) {
        Some(n) => sunlight_at(dimmed, n) == 0,
        None => true,
    } by {
        lemma_neighbor_differs(p, j);
    }
    // the wave of darkness finds nothing to darken
    let node = DimNode { position: p, intensity: 0 };
    let start = seq![node];
    lemma_dim_visit_dark(dimmed, p, 0);
    let step = dim_visit(dimmed, p, 0, 0);
    assert(start.skip(1) + step.queued =~= Seq::<DimNode>::empty());
    let dim = dim_flood(dimmed, start);
    assert(dim_flood(dimmed, Seq::<DimNode>::empty()).world == dimmed);
    assert(dim.world == dimmed);
    assert(dim.sources =~= step.sources);
    // and the surviving sources have no light to give
    lemma_dark_wave(dimmed, dim.sources);
    let placed = flood_from_placed(stored, p, sunlight_at(w, p)).world;
    assert(placed == dimmed);
    // breaking the block lets no light in
    let air = fresh_block(Blocks::AIR, p);
    assert(air.wf());
    let opened = with_block(placed, air);
    lemma_with_block(placed, air);
    assert forall|q: Vector3| #[trigger] sunlight_at(opened, q) == sunlight_at(w, q) by {
        let a = block_at(opened, q);
        let b = block_at(placed, q);
        assert(sunlight_at(placed, q) == sunlight_at(w, q));
    }
    assert forall|j: int| 0 <= j < 6 implies match #[trigger] neighbor(p, j) {
        Some(n) => sunlight_at(opened, n) == 0,
        None => true,
    } by {
        let seen = neighbor(p, j);
        if seen.is_some() {
            assert(sunlight_at(opened, seen.unwrap()) == sunlight_at(w, seen.unwrap()));
        }
    }
    lemma_max_neighbor_dark(opened, p, 0);
    assert(broken_light(opened, p) == 0);
    let relit = with_sunlight(opened, p, 0);
    lemma_with_sunlight(opened, p, 0);
    assert forall|q: Vector3| #[trigger] sunlight_at(relit, q) == sunlight_at(w, q) by {
        let a = block_at(relit, q);
        let b = block_at(opened, q);
        assert(sunlight_at(opened, q) == sunlight_at(w, q));
    }
    assert(sunlight_at(relit, seq![p][0]) == 0);
    lemma_dark_wave(relit, seq![p]);
    let broken = flood_from_broken(opened, p).world;
    assert(broken == relit);
}

/// Dimming twice is dimming.
pub proof fn lemma_dimmed_transitive(a: Map<u32, ChunkView>, b: Map<u32, ChunkView>, c: Map<u32, ChunkView>)
    requires
        dimmed(a, b),
        dimmed(b, c),
    ensures
        dimmed(a, c),
{
    assert forall|p: Vector3|
        match #[trigger] block_at(c, p) {
            Some(y) => match block_at(a, p) {
                Some(x) => y.kind == x.kind && y.sunlight_intensity <= x.sunlight_intensity,
                None => false,
            },
            None => block_at(a, p).is_none(),
        } by {
        let mid = block_at(b, p);
    }
}

/// A darkened block that visits its neighbours only takes light away.
pub proof fn lemma_dim_visit_dims(w: Map<u32, ChunkView>, pos: Vector3, intensity: u8, i: int)
    requires
        world_wf(w),
    ensures
        dimmed(w, dim_visit(w, pos, intensity, i).world),
        world_wf(dim_visit(w, pos, intensity, i).world),
    decreases 6 - i,
{
    if 0 <= i < 6 {
        match neighbor(pos, i) {
            Some(n) => match block_at(w, n) {
                Some(b) => match dim_action(b.sunlight_intensity, intensity, pos, n) {
                    DimAction::Darken => {
                        let w2 = with_sunlight(w, n, 0);
                        lemma_with_sunlight(w, n, 0);
                        lemma_dim_visit_dims(w2, pos, intensity, i + 1);
                        lemma_dimmed_transitive(w, w2, dim_visit(w2, pos, intensity, i + 1).world);
                    },
                    DimAction::Source => {
                        lemma_dim_visit_dims(w, pos, intensity, i + 1);
                    },
                    DimAction::Skip => {
                        lemma_dim_visit_dims(w, pos, intensity, i + 1);
                    },
                },
                None => {
                    lemma_dim_visit_dims(w, pos, intensity, i + 1);
                },
            },
            None => {
                lemma_dim_visit_dims(w, pos, intensity, i + 1);
            },
        }
    }
}

/// A wave of darkness only ever takes light away, and the world stays
/// well formed.
pub proof fn lemma_dim_flood_dims(w: Map<u32, ChunkView>, queue: Seq<DimNode>)
    requires
        world_wf(w),
    ensures
        dimmed(w, dim_flood(w, queue).world),
        world_wf(dim_flood(w, queue).world),
    decreases 2 * world_measure(w, false) + queue_weight(queue),
{
    if queue.len() > 0 {
        let step = dim_visit(w, queue[0].position, queue[0].intensity, 0);
        lemma_dim_visit(w, queue[0].position, queue[0].intensity, 0);
        lemma_dim_visit_dims(w, queue[0].position, queue[0].intensity, 0);
        lemma_queue_weight_append(queue.skip(1), step.queued);
        lemma_world_measure_nonnegative(step.world, 0x1_0000_0000, false);
        lemma_queue_weight_nonnegative(queue.skip(1) + step.queued);
        lemma_dim_flood_dims(step.world, queue.skip(1) + step.queued);
        lemma_dimmed_transitive(w, step.world, dim_flood(step.world, queue.skip(1) + step.queued).world);
    }
}

/// A block that stops light holds no sunlight once the light around it
/// has been taken back: where such a block was placed, its own cell is dark.
pub proof fn lemma_placed_block_is_dark(w: Map<u32, ChunkView>, pos: Vector3, prevsun: u8)
    requires
        world_wf(w),
        block_at(w, pos).is_some(),
        !block_at(w, pos).unwrap().kind.transparent_spec(),
    ensures
        sunlight_at(flood_from_placed(w, pos, prevsun).world, pos) == 0,
        world_wf(flood_from_placed(w, pos, prevsun).world),
{
    let cleared = with_sunlight(w, pos, 0);
    lemma_with_sunlight(w, pos, 0);
    let start = seq![DimNode { position: pos, intensity: prevsun }];
    let dim = dim_flood(cleared, start);
    lemma_dim_flood_dims(cleared, start);
    let a = block_at(cleared, pos);
    let b = block_at(dim.world, pos);
    assert(sunlight_at(dim.world, pos) == 0);
    let raise = raise_flood(dim.world, dim.sources);
    lemma_raise_flood_brightens(dim.world, dim.sources);
    let c = block_at(raise.world, pos);
}

/// The block whose cell was opened by a break holds the light that
/// enters it, or more: the raising wave only adds light.
pub proof fn lemma_broken_cell_is_lit(w: Map<u32, ChunkView>, pos: Vector3)
    requires
        world_wf(w),
        block_at(w, pos).is_some(),
    ensures
        sunlight_at(flood_from_broken(w, pos).world, pos) >= broken_light(w, pos),
        world_wf(flood_from_broken(w, pos).world),
{
    lemma_broken_light_bounded(w, pos);
    let lit = with_sunlight(w, pos, broken_light(w, pos));
    lemma_with_sunlight(w, pos, broken_light(w, pos));
    lemma_raise_flood_brightens(lit, seq![pos]);
    let a = block_at(lit, pos);
    let b = block_at(flood_from_broken(w, pos).world, pos);
}

/// The light that enters an opened cell is at most full sunlight.
pub proof fn lemma_broken_light_bounded(w: Map<u32, ChunkView>, pos: Vector3)
    requires
        world_wf(w),
    ensures
        broken_light(w, pos) <= 15,
{
    lemma_max_neighbor_bounded(w, pos, 0);
}

proof fn lemma_max_neighbor_bounded(w: Map<u32, ChunkView>, pos: Vector3, i: int)
    requires
        world_wf(w),
    ensures
        max_neighbor_light(w, pos, i) <= 15,
    decreases 6 - i,
{
    if 0 <= i < 6 {
        lemma_max_neighbor_bounded(w, pos, i + 1);
        match neighbor(pos, i) {
            Some(n) => {
                lemma_light_bounded(w, n);
            },
            None => {},
        }
    }
}

} // verus!
