use vstd::prelude::*;
use std::collections::VecDeque;
use crate::blocks::Block;
use crate::chunk::{ChunkView, chunk_key, cell_index, lemma_cell_index};
use crate::light_measure::{
    world_measure,
    block_measure,
    lemma_cells_measure_update,
    lemma_world_measure_insert,
    lemma_world_measure_nonnegative,
};
use crate::vector::{Vector3, offset, offset_spec, div16};
use crate::world::{ChunkMap, world_wf, block_at, chunk_at, sunlight_at, with_sunlight};

verus! {

/// The six neighbours of a block are visited in this order: east, west,
/// south, north, up, down.
pub open spec fn neighbor_offset(i: int) -> Vector3 {
    if i == 0 {
        Vector3 { x: 1, y: 0, z: 0 }
    } else if i == 1 {
        Vector3 { x: -1i32, y: 0, z: 0 }
    } else if i == 2 {
        Vector3 { x: 0, y: 0, z: 1 }
    } else if i == 3 {
        Vector3 { x: 0, y: 0, z: -1i32 }
    } else if i == 4 {
        Vector3 { x: 0, y: 1, z: 0 }
    } else {
        Vector3 { x: 0, y: -1i32, z: 0 }
    }
}

/// The `i`-th neighbour of `pos`, none past the edge of the coordinates.
pub open spec fn neighbor(pos: Vector3, i: int) -> Option<Vector3> {
    offset_spec(pos, neighbor_offset(i))
}

/// The `i`-th neighbour of `pos`, none past the edge of the coordinates.
pub fn neighbor_at(pos: Vector3, i: usize) -> (r: Option<Vector3>)
    requires
        i < 6,
    ensures
        r == neighbor(pos, i as int),
{
    let d = if i == 0 {
        Vector3::new(1, 0, 0)
    } else if i == 1 {
        Vector3::new(-1, 0, 0)
    } else if i == 2 {
        Vector3::new(0, 0, 1)
    } else if i == 3 {
        Vector3::new(0, 0, -1)
    } else if i == 4 {
        Vector3::new(0, 1, 0)
    } else {
        Vector3::new(0, -1, 0)
    };
    offset(pos, d)
}

/// The slice that holds a block: chunk x, slice number, chunk z.
pub open spec fn slice_of(p: Vector3) -> Vector3 {
    Vector3 {
        x: (p.x as int / 16) as i32,
        y: (p.y as int / 16) as i32,
        z: (p.z as int / 16) as i32,
    }
}

/// The light that a lit block at `pos` with the given intensity gives to its
/// neighbour `n`: none unless the neighbour lets light through and is more
/// than one step darker; then one step less than the source, except that
/// full sunlight falls straight down undimmed.
pub open spec fn raised_light(w: Map<u32, ChunkView>, pos: Vector3, intensity: u8, n: Vector3) -> Option<
    u8,
> {
    match block_at(w, n) {
        Some(b) => if b.sunlight_intensity + 2 <= intensity && b.kind.transparent_spec() {
            if intensity == 15 && n.y == pos.y - 1 {
                Some(15u8)
            } else {
                Some((intensity - 1) as u8)
            }
        } else {
            None
        },
        None => None,
    }
}

/// Visiting the neighbours `i..6` of a lit block: the world after raising
/// those that take light, and their positions in visiting order.
pub open spec fn raise_visit(w: Map<u32, ChunkView>, pos: Vector3, intensity: u8, i: int) -> (
    Map<u32, ChunkView>,
    Seq<Vector3>,
)
    decreases 6 - i,
{
    if i < 0 || i >= 6 {
        (w, Seq::empty())
    } else {
        match neighbor(pos, i) {
            Some(n) => match raised_light(w, pos, intensity, n) {
                Some(v) => {
                    let rest = raise_visit(with_sunlight(w, n, v), pos, intensity, i + 1);
                    (rest.0, seq![n] + rest.1)
                },
                None => raise_visit(w, pos, intensity, i + 1),
            },
            None => raise_visit(w, pos, intensity, i + 1),
        }
    }
}

/// A world after a wave of light, and the positions whose light the wave
/// changed, in the order of the changes.
pub struct LightWave {
    pub world: Map<u32, ChunkView>,
    pub touched: Seq<Vector3>,
}

/// The breadth-first raising wave. The block at the head of the queue
/// lights its neighbours; every neighbour that was raised joins the end of
/// the queue; the wave ends when the queue is empty.
pub open spec fn raise_flood(w: Map<u32, ChunkView>, queue: Seq<Vector3>) -> LightWave
    decreases world_measure(w, true) + queue.len(),
    when world_wf(w)
{
    if queue.len() == 0 {
        LightWave { world: w, touched: Seq::empty() }
    } else {
        let step = raise_visit(w, queue[0], sunlight_at(w, queue[0]), 0);
        proof {
            lemma_raise_visit(w, queue[0], sunlight_at(w, queue[0]), 0);
            lemma_world_measure_nonnegative(step.0, 0x1_0000_0000, true);
        }
        let rest = raise_flood(step.0, queue.skip(1) + step.1);
        LightWave { world: rest.world, touched: step.1 + rest.touched }
    }
}

/// Setting the sunlight of a block keeps the world well formed, changes the
/// light of that block alone, and moves both measures by the difference.
pub proof fn lemma_with_sunlight(w: Map<u32, ChunkView>, p: Vector3, v: u8)
    requires
        world_wf(w),
        v <= 15,
    ensures
        world_wf(with_sunlight(w, p, v)),
        with_sunlight(w, p, v).dom() == w.dom(),
        forall|k: u32| w.contains_key(k) ==> (#[trigger] with_sunlight(w, p, v)[k]).position == w[k].position,
        forall|q: Vector3|
            #[trigger] block_at(with_sunlight(w, p, v), q) == if q == p && block_at(w, p).is_some() {
                Some(Block { sunlight_intensity: v, ..block_at(w, p).unwrap() })
            } else {
                block_at(w, q)
            },
        forall|dark: bool|
            #[trigger] world_measure(with_sunlight(w, p, v), dark) == world_measure(w, dark)
                + match block_at(w, p) {
                Some(b) => block_measure(Block { sunlight_intensity: v, ..b }, dark)
                    - block_measure(b, dark),
                None => 0,
            },
{
    let w2 = with_sunlight(w, p, v);
    if block_at(w, p).is_some() {
        let k = chunk_key(p.x as int / 16, p.z as int / 16);
        let c = w[k];
        let i = cell_index(p.x as int % 16, p.y as int, p.z as int % 16);
        lemma_cell_index(p.x as int % 16, p.y as int, p.z as int % 16);
        let b = c.cells[i];
        let b2 = Block { sunlight_intensity: v, ..b };
        let c2 = c.with_sunlight(i, v);
        assert(w2 == w.insert(k, c2));
        assert(c2.wf()) by {
            assert forall|j: int| 0 <= j < 65536 implies (#[trigger] c2.cells[j]).wf()
                && c2.cells[j].absolute_position == crate::chunk::cell_position(c2.position, j) by {
                assert(c.cells[j].wf());
            }
        }
        assert(world_wf(w2)) by {
            assert forall|kk: u32| w2.contains_key(kk) implies (#[trigger] w2[kk]).wf() && chunk_key(
                w2[kk].position.x as int,
                w2[kk].position.y as int,
            ) == kk by {
                if kk != k {
                    assert(w[kk].wf());
                }
            }
        }
        assert(w2.dom() =~= w.dom());
        assert forall|q: Vector3|
            #[trigger] block_at(w2, q) == if q == p {
                Some(b2)
            } else {
                block_at(w, q)
            } by {
            if 0 <= q.y <= 255 {
                let kq = chunk_key(q.x as int / 16, q.z as int / 16);
                if kq == k && chunk_at(w, q.x as int, q.z as int).is_some() {
                    lemma_cell_index(q.x as int % 16, q.y as int, q.z as int % 16);
                    let j = cell_index(q.x as int % 16, q.y as int, q.z as int % 16);
                    if j == i {
                        assert(q.x as int % 16 == p.x as int % 16);
                        assert(q.z as int % 16 == p.z as int % 16);
                        assert(q.x as int / 16 == p.x as int / 16);
                        assert(q == p);
                    }
                }
            }
        }
        assert forall|dark: bool|
            #[trigger] world_measure(w2, dark) == world_measure(w, dark) + block_measure(b2, dark)
                - block_measure(b, dark) by {
            lemma_world_measure_insert(w, 0x1_0000_0000, k, c2, dark);
            lemma_cells_measure_update(c.cells, 65536, i, b2, dark);
        }
    } else {
        assert(w2 == w);
    }
}

/// Visiting the neighbours of a lit block keeps the world well formed and
/// pays for every position it queues with at least one unit of darkness.
pub proof fn lemma_raise_visit(w: Map<u32, ChunkView>, pos: Vector3, intensity: u8, i: int)
    requires
        world_wf(w),
        intensity <= 15,
    ensures
        world_wf(raise_visit(w, pos, intensity, i).0),
        world_measure(raise_visit(w, pos, intensity, i).0, true) + raise_visit(
            w,
            pos,
            intensity,
            i,
        ).1.len() <= world_measure(w, true),
    decreases 6 - i,
{
    if 0 <= i < 6 {
        match neighbor(pos, i) {
            Some(n) => match raised_light(w, pos, intensity, n) {
                Some(v) => {
                    lemma_with_sunlight(w, n, v);
                    lemma_raise_visit(with_sunlight(w, n, v), pos, intensity, i + 1);
                },
                None => {
                    lemma_raise_visit(w, pos, intensity, i + 1);
                },
            },
            None => {
                lemma_raise_visit(w, pos, intensity, i + 1);
            },
        }
    }
}

/// The slice list with `v` added at the end, unless it holds `v` already.
pub open spec fn insert_unique(s: Seq<Vector3>, v: Vector3) -> Seq<Vector3> {
    if s.contains(v) {
        s
    } else {
        s.push(v)
    }
}

/// The slice list `acc` extended by the slices of the positions `ps`, each
/// slice once, in the order in which the positions first reach it.
pub open spec fn collect_slices(acc: Seq<Vector3>, ps: Seq<Vector3>) -> Seq<Vector3>
    decreases ps.len(),
{
    if ps.len() == 0 {
        acc
    } else {
        collect_slices(insert_unique(acc, slice_of(ps[0])), ps.skip(1))
    }
}

/// Collecting the slices of two lists of positions one after the other is
/// collecting those of their concatenation.
pub proof fn lemma_collect_slices_append(acc: Seq<Vector3>, a: Seq<Vector3>, b: Seq<Vector3>)
    ensures
        collect_slices(acc, a + b) == collect_slices(collect_slices(acc, a), b),
    decreases a.len(),
{
    if a.len() == 0 {
        assert(a + b =~= b);
    } else {
        assert((a + b).skip(1) =~= a.skip(1) + b);
        lemma_collect_slices_append(insert_unique(acc, slice_of(a[0])), a.skip(1), b);
    }
}

/// Adds the slice of `p` to the list of touched slices.
#[verifier::loop_isolation(false)]
pub fn note_slice(touched: &mut Vec<Vector3>, p: Vector3)
    ensures
        final(touched)@ == insert_unique(old(touched)@, slice_of(p)),
        final(touched)@ == collect_slices(old(touched)@, seq![p]),
{
    let s = Vector3::new(div16(p.x), div16(p.y), div16(p.z));
    assert(s == slice_of(p));
    proof {
        reveal_with_fuel(collect_slices, 2);
        assert(seq![p].skip(1) =~= Seq::<Vector3>::empty());
    }
    let mut i: usize = 0;
    while i < touched.len()
        invariant
            i <= touched@.len(),
            touched@ == old(touched)@,
            forall|j: int| 0 <= j < i ==> touched@[j] != s,
        decreases touched@.len() - i,
    {
        if touched[i] == s {
            assert(touched@[i as int] == s);
            assert(touched@.contains(s));
            return ;
        }
        i = i + 1;
    }
    assert(!touched@.contains(s));
    touched.push(s);
}

/// Runs the raising wave from the queued positions and notes the slice of
/// every block it lights up.
pub fn raise_wave(chunks: &mut ChunkMap, queue: VecDeque<Vector3>, touched: &mut Vec<Vector3>)
    ensures
        final(chunks)@ == raise_flood(old(chunks)@, queue@).world,
        final(touched)@ == collect_slices(
            old(touched)@,
            raise_flood(old(chunks)@, queue@).touched,
        ),
        world_wf(final(chunks)@),
{
    let mut queue = queue;
    let ghost start = chunks@;
    let ghost target = raise_flood(chunks@, queue@);
    let ghost mut trace: Seq<Vector3> = Seq::empty();
    let ghost touched_start = touched@;
    chunks.well_formed();
    while queue.len() > 0
        invariant
            world_wf(chunks@),
            raise_flood(chunks@, queue@).world == target.world,
            trace + raise_flood(chunks@, queue@).touched == target.touched,
            touched@ == collect_slices(touched_start, trace),
        decreases world_measure(chunks@, true) + queue@.len(),
    {
        let ghost before = chunks@;
        let ghost queue_before = queue@;
        let pos = queue.pop_front().unwrap();
        let intensity = chunks.sunlight_at(pos);
        let ghost step = raise_visit(before, pos, intensity, 0);
        let ghost trace_before = trace;
        proof {
            lemma_raise_visit(before, pos, intensity, 0);
            lemma_world_measure_nonnegative(step.0, 0x1_0000_0000, true);
            assert(queue@ =~= queue_before.skip(1));
        }
        let mut i: usize = 0;
        while i < 6
            invariant
                i <= 6,
                intensity <= 15,
                world_wf(chunks@),
                raise_visit(chunks@, pos, intensity, i as int).0 == step.0,
                trace + raise_visit(chunks@, pos, intensity, i as int).1 == trace_before + step.1,
                queue@ + raise_visit(chunks@, pos, intensity, i as int).1 == queue_before.skip(1)
                    + step.1,
                touched@ == collect_slices(touched_start, trace),
            decreases 6 - i,
        {
            let ghost world_here = chunks@;
            let ghost rest_here = raise_visit(world_here, pos, intensity, i as int);
            match neighbor_at(pos, i) {
                Some(n) => {
                    let (current, transparent) = match chunks.block_at(n) {
                        Some(b) => (b.get_sunlight_intensity(), b.has_partial_transparency()),
                        None => (255u8, false),
                    };
                    if transparent && current + 2 <= intensity {
                        let value: u8 = if intensity == 15 && n.y == pos.y - 1 {
                            15
                        } else {
                            intensity - 1
                        };
                        assert(raised_light(world_here, pos, intensity, n) == Some(value));
                        chunks.set_sunlight_at(n, value);
                        queue.push_back(n);
                        note_slice(touched, n);
                        proof {
                            let rest = raise_visit(chunks@, pos, intensity, i as int + 1);
                            assert(rest_here.1 =~= seq![n] + rest.1);
                            assert(trace.push(n) + rest.1 =~= trace + rest_here.1);
                            assert(queue@ + rest.1 =~= queue@.drop_last() + rest_here.1);
                            lemma_collect_slices_append(touched_start, trace, seq![n]);
                            assert(trace.push(n) =~= trace + seq![n]);
                            trace = trace.push(n);
                        }
                    } else {
                        assert(raised_light(world_here, pos, intensity, n).is_none());
                    }
                },
                None => {},
            }
            i = i + 1;
        }
        proof {
            assert(raise_visit(chunks@, pos, intensity, 6).1 =~= Seq::<Vector3>::empty());
            assert(queue@ =~= queue_before.skip(1) + step.1);
            assert(trace =~= trace_before + step.1);
            let rest = raise_flood(step.0, queue_before.skip(1) + step.1);
            assert(raise_flood(before, queue_before).touched == step.1 + rest.touched);
            assert(trace + rest.touched =~= trace_before + (step.1 + rest.touched));
        }
    }
    proof {
        assert(trace =~= trace + Seq::<Vector3>::empty());
    }
}

/// A block whose light was taken away, with the light it had: the wave of
/// darkness goes on from it with that intensity.
#[derive(Clone, Copy, Debug)]
pub struct DimNode {
    pub position: Vector3,
    pub intensity: u8,
}

/// What the wave of darkness does to a neighbour that holds light
/// `current`, when it arrives with `intensity` from `pos`.
pub enum DimAction {
    /// The neighbour was lit only from here: its light is removed and the
    /// wave goes on from it.
    Darken,
    /// The neighbour is at least as bright: it stays lit and will light the
    /// darkened region again.
    Source,
    /// The neighbour is dark already.
    Skip,
}

/// What the wave of darkness does to a neighbour. It is darkened where it
/// holds less light than arrives, but some; and, whatever it holds, where
/// it lies straight below a node of full sunlight. Else it is kept as a
/// source where it holds at least the light that arrives.
pub open spec fn dim_action(current: u8, intensity: u8, pos: Vector3, n: Vector3) -> DimAction {
    if (current < intensity && current != 0) || (intensity == 15 && n.y == pos.y - 1) {
        DimAction::Darken
    } else if current >= intensity {
        DimAction::Source
    } else {
        DimAction::Skip
    }
}

/// The outcome of visiting neighbours in the wave of darkness: the world,
/// the darkened neighbours and the surviving sources, each in visiting order.
pub struct DimStep {
    pub world: Map<u32, ChunkView>,
    pub queued: Seq<DimNode>,
    pub sources: Seq<Vector3>,
}

/// Visiting the neighbours `i..6` of a darkened block.
pub open spec fn dim_visit(w: Map<u32, ChunkView>, pos: Vector3, intensity: u8, i: int) -> DimStep
    decreases 6 - i,
{
    if i < 0 || i >= 6 {
        DimStep { world: w, queued: Seq::empty(), sources: Seq::empty() }
    } else {
        match neighbor(pos, i) {
            Some(n) => match block_at(w, n) {
                Some(b) => match dim_action(b.sunlight_intensity, intensity, pos, n) {
                    DimAction::Darken => {
                        let rest = dim_visit(with_sunlight(w, n, 0), pos, intensity, i + 1);
                        DimStep {
                            world: rest.world,
                            queued: seq![DimNode { position: n, intensity: b.sunlight_intensity }]
                                + rest.queued,
                            sources: rest.sources,
                        }
                    },
                    DimAction::Source => {
                        let rest = dim_visit(w, pos, intensity, i + 1);
                        DimStep {
                            world: rest.world,
                            queued: rest.queued,
                            sources: seq![n] + rest.sources,
                        }
                    },
                    DimAction::Skip => dim_visit(w, pos, intensity, i + 1),
                },
                None => dim_visit(w, pos, intensity, i + 1),
            },
            None => dim_visit(w, pos, intensity, i + 1),
        }
    }
}

/// The result of a whole wave of darkness: the world, the darkened
/// positions and the surviving sources, each in the order of discovery.
pub struct DimWave {
    pub world: Map<u32, ChunkView>,
    pub touched: Seq<Vector3>,
    pub sources: Seq<Vector3>,
}

/// A node counts double while it carries full sunlight, because it may
/// darken the block below it whatever light that block holds.
pub open spec fn node_weight(node: DimNode) -> int {
    if node.intensity == 15 {
        2
    } else {
        1
    }
}

/// The weight of all nodes of a queue.
pub open spec fn queue_weight(queue: Seq<DimNode>) -> int
    decreases queue.len(),
{
    if queue.len() == 0 {
        0
    } else {
        node_weight(queue[0]) + queue_weight(queue.skip(1))
    }
}

/// The positions of the nodes of a queue.
pub open spec fn positions_of(queue: Seq<DimNode>) -> Seq<Vector3> {
    Seq::new(queue.len(), |i: int| queue[i].position)
}

/// The breadth-first wave of darkness. The node at the head of the queue
/// visits its neighbours; the darkened ones join the end of the queue, the
/// brighter ones are kept as sources.
pub open spec fn dim_flood(w: Map<u32, ChunkView>, queue: Seq<DimNode>) -> DimWave
    decreases 2 * world_measure(w, false) + queue_weight(queue),
    when world_wf(w)
{
    if queue.len() == 0 {
        DimWave { world: w, touched: Seq::empty(), sources: Seq::empty() }
    } else {
        let step = dim_visit(w, queue[0].position, queue[0].intensity, 0);
        proof {
            lemma_dim_visit(w, queue[0].position, queue[0].intensity, 0);
            lemma_queue_weight_append(queue.skip(1), step.queued);
            lemma_world_measure_nonnegative(step.world, 0x1_0000_0000, false);
            lemma_queue_weight_nonnegative(queue.skip(1) + step.queued);
        }
        let rest = dim_flood(step.world, queue.skip(1) + step.queued);
        DimWave {
            world: rest.world,
            touched: positions_of(step.queued) + rest.touched,
            sources: step.sources + rest.sources,
        }
    }
}

/// The weight of a queue is not negative.
pub proof fn lemma_queue_weight_nonnegative(queue: Seq<DimNode>)
    ensures
        0 <= queue_weight(queue),
    decreases queue.len(),
{
    if queue.len() > 0 {
        lemma_queue_weight_nonnegative(queue.skip(1));
    }
}

/// The weight of two queues is the weight of their concatenation.
pub proof fn lemma_queue_weight_append(a: Seq<DimNode>, b: Seq<DimNode>)
    ensures
        queue_weight(a + b) == queue_weight(a) + queue_weight(b),
    decreases a.len(),
{
    if a.len() == 0 {
        assert(a + b =~= b);
    } else {
        assert((a + b).skip(1) =~= a.skip(1) + b);
        lemma_queue_weight_append(a.skip(1), b);
    }
}

/// Visiting the neighbours of a darkened block keeps the world well formed.
/// Every node it queues is paid for by the light that was removed, but for
/// the block below a node of full sunlight, which may cost one unit.
pub proof fn lemma_dim_visit(w: Map<u32, ChunkView>, pos: Vector3, intensity: u8, i: int)
    requires
        world_wf(w),
    ensures
        world_wf(dim_visit(w, pos, intensity, i).world),
        2 * world_measure(dim_visit(w, pos, intensity, i).world, false) + queue_weight(
            dim_visit(w, pos, intensity, i).queued,
        ) <= 2 * world_measure(w, false) + if intensity == 15 && i <= 5 {
            1int
        } else {
            0int
        },
    decreases 6 - i,
{
    if 0 <= i < 6 {
        match neighbor(pos, i) {
            Some(n) => match block_at(w, n) {
                Some(b) => match dim_action(b.sunlight_intensity, intensity, pos, n) {
                    DimAction::Darken => {
                        let w2 = with_sunlight(w, n, 0);
                        lemma_with_sunlight(w, n, 0);
                        lemma_dim_visit(w2, pos, intensity, i + 1);
                        let rest = dim_visit(w2, pos, intensity, i + 1);
                        let node = DimNode { position: n, intensity: b.sunlight_intensity };
                        lemma_queue_weight_append(seq![node], rest.queued);
                        reveal_with_fuel(queue_weight, 2);
                        assert(seq![node].skip(1) =~= Seq::<DimNode>::empty());
                        assert(queue_weight(seq![node]) == node_weight(node));
                        assert(world_measure(w2, false) == world_measure(w, false)
                            - b.sunlight_intensity);
                        if i < 5 {
                            assert(n.y != pos.y - 1);
                        }
                    },
                    DimAction::Source => {
                        lemma_dim_visit(w, pos, intensity, i + 1);
                    },
                    DimAction::Skip => {
                        lemma_dim_visit(w, pos, intensity, i + 1);
                    },
                },
                None => {
                    lemma_dim_visit(w, pos, intensity, i + 1);
                },
            },
            None => {
                lemma_dim_visit(w, pos, intensity, i + 1);
            },
        }
    }
}

/// Runs the wave of darkness from the queued nodes, notes the slice of
/// every block it darkens, and hands back the surviving sources.
pub fn dim_wave(chunks: &mut ChunkMap, queue: VecDeque<DimNode>, touched: &mut Vec<Vector3>) -> (sources:
    VecDeque<Vector3>)
    ensures
        final(chunks)@ == dim_flood(old(chunks)@, queue@).world,
        sources@ == dim_flood(old(chunks)@, queue@).sources,
        final(touched)@ == collect_slices(old(touched)@, dim_flood(old(chunks)@, queue@).touched),
        world_wf(final(chunks)@),
{
    let mut queue = queue;
    let mut sources: VecDeque<Vector3> = VecDeque::new();
    let ghost target = dim_flood(chunks@, queue@);
    let ghost mut trace: Seq<Vector3> = Seq::empty();
    let ghost touched_start = touched@;
    chunks.well_formed();
    while queue.len() > 0
        invariant
            world_wf(chunks@),
            dim_flood(chunks@, queue@).world == target.world,
            trace + dim_flood(chunks@, queue@).touched == target.touched,
            sources@ + dim_flood(chunks@, queue@).sources == target.sources,
            touched@ == collect_slices(touched_start, trace),
        decreases 2 * world_measure(chunks@, false) + queue_weight(queue@),
    {
        let ghost before = chunks@;
        let ghost queue_before = queue@;
        let ghost trace_before = trace;
        let ghost sources_before = sources@;
        let node = queue.pop_front().unwrap();
        let pos = node.position;
        let intensity = node.intensity;
        let ghost step = dim_visit(before, pos, intensity, 0);
        proof {
            lemma_dim_visit(before, pos, intensity, 0);
            lemma_queue_weight_append(queue_before.skip(1), step.queued);
            lemma_world_measure_nonnegative(step.world, 0x1_0000_0000, false);
            lemma_queue_weight_nonnegative(queue_before.skip(1) + step.queued);
            assert(queue@ =~= queue_before.skip(1));
        }
        let mut i: usize = 0;
        while i < 6
            invariant
                i <= 6,
                world_wf(chunks@),
                dim_visit(chunks@, pos, intensity, i as int).world == step.world,
                trace + positions_of(dim_visit(chunks@, pos, intensity, i as int).queued)
                    == trace_before + positions_of(step.queued),
                queue@ + dim_visit(chunks@, pos, intensity, i as int).queued == queue_before.skip(1)
                    + step.queued,
                sources@ + dim_visit(chunks@, pos, intensity, i as int).sources == sources_before
                    + step.sources,
                touched@ == collect_slices(touched_start, trace),
            decreases 6 - i,
        {
            let ghost world_here = chunks@;
            let ghost rest_here = dim_visit(world_here, pos, intensity, i as int);
            match neighbor_at(pos, i) {
                Some(n) => {
                    let found = match chunks.block_at(n) {
                        Some(b) => Some(b.get_sunlight_intensity()),
                        None => None,
                    };
                    match found {
                        Some(current) => {
                            if (current < intensity && current != 0) || (intensity == 15 && n.y
                                == pos.y - 1) {
                                chunks.set_sunlight_at(n, 0);
                                queue.push_back(DimNode { position: n, intensity: current });
                                note_slice(touched, n);
                                proof {
                                    let rest = dim_visit(chunks@, pos, intensity, i as int + 1);
                                    let node = DimNode { position: n, intensity: current };
                                    assert(rest_here.queued =~= seq![node] + rest.queued);
                                    assert(positions_of(rest_here.queued) =~= seq![n] + positions_of(
                                        rest.queued,
                                    ));
                                    assert(trace.push(n) + positions_of(rest.queued) =~= trace
                                        + positions_of(rest_here.queued));
                                    assert(queue@ + rest.queued =~= queue@.drop_last()
                                        + rest_here.queued);
                                    lemma_collect_slices_append(touched_start, trace, seq![n]);
                                    assert(trace.push(n) =~= trace + seq![n]);
                                    trace = trace.push(n);
                                }
                            } else if current >= intensity {
                                sources.push_back(n);
                                proof {
                                    let rest = dim_visit(chunks@, pos, intensity, i as int + 1);
                                    assert(rest_here.sources =~= seq![n] + rest.sources);
                                    assert(sources@ + rest.sources =~= sources@.drop_last()
                                        + rest_here.sources);
                                }
                            }
                        },
                        None => {},
                    }
                },
                None => {},
            }
            i = i + 1;
        }
        proof {
            let last = dim_visit(chunks@, pos, intensity, 6);
            assert(last.queued =~= Seq::<DimNode>::empty());
            assert(last.sources =~= Seq::<Vector3>::empty());
            assert(positions_of(last.queued) =~= Seq::<Vector3>::empty());
            assert(queue@ =~= queue_before.skip(1) + step.queued);
            assert(trace =~= trace_before + positions_of(step.queued));
            assert(sources@ =~= sources_before + step.sources);
            let rest = dim_flood(step.world, queue_before.skip(1) + step.queued);
            assert(trace + rest.touched =~= trace_before + (positions_of(step.queued)
                + rest.touched));
            assert(sources@ + rest.sources =~= sources_before + (step.sources + rest.sources));
        }
    }
    proof {
        assert(trace =~= trace + Seq::<Vector3>::empty());
        assert(sources@ =~= sources@ + Seq::<Vector3>::empty());
    }
    sources
}

/// What placing a light-stopping block at `pos` does to the light, where
/// that position held the light `prevsun` before: the block's own light is
/// removed, a wave of darkness takes away the light that came through it,
/// and the surviving sources light the darkened region again.
pub open spec fn flood_from_placed(w: Map<u32, ChunkView>, pos: Vector3, prevsun: u8) -> LightWave {
    let dim = dim_flood(
        with_sunlight(w, pos, 0),
        seq![DimNode { position: pos, intensity: prevsun }],
    );
    let raise = raise_flood(dim.world, dim.sources);
    LightWave { world: raise.world, touched: seq![pos] + dim.touched + raise.touched }
}

/// Retracts and refloods the sunlight around a block that was just placed
/// at `pos`, and lists the slices whose light changed, the block's own first.
pub fn flood_lights_from_placed(chunks: &mut ChunkMap, pos: Vector3, prevsun: u8) -> (touched: Vec<
    Vector3,
>)
    ensures
        world_wf(old(chunks)@),
        final(chunks)@ == flood_from_placed(old(chunks)@, pos, prevsun).world,
        touched@ == collect_slices(
            Seq::empty(),
            flood_from_placed(old(chunks)@, pos, prevsun).touched,
        ),
        world_wf(final(chunks)@),
{
    let ghost start = chunks@;
    chunks.well_formed();
    let mut touched: Vec<Vector3> = Vec::new();
    let mut queue: VecDeque<DimNode> = VecDeque::new();
    note_slice(&mut touched, pos);
    chunks.set_sunlight_at(pos, 0);
    queue.push_back(DimNode { position: pos, intensity: prevsun });
    assert(queue@ =~= seq![DimNode { position: pos, intensity: prevsun }]);
    let ghost dim = dim_flood(chunks@, queue@);
    let sources = dim_wave(chunks, queue, &mut touched);
    let ghost raise = raise_flood(chunks@, sources@);
    raise_wave(chunks, sources, &mut touched);
    proof {
        lemma_collect_slices_append(Seq::empty(), seq![pos], dim.touched);
        lemma_collect_slices_append(Seq::empty(), seq![pos] + dim.touched, raise.touched);
    }
    touched
}

/// The brightest sunlight among the neighbours `i..6` of `pos`.
pub open spec fn max_neighbor_light(w: Map<u32, ChunkView>, pos: Vector3, i: int) -> u8
    decreases 6 - i,
{
    if i < 0 || i >= 6 {
        0
    } else {
        let here = match neighbor(pos, i) {
            Some(n) => sunlight_at(w, n),
            None => 0u8,
        };
        let rest = max_neighbor_light(w, pos, i + 1);
        if here >= rest {
            here
        } else {
            rest
        }
    }
}

/// The light that enters a cell once its block is gone: nothing where all
/// neighbours are dark; full sunlight under a block in full sunlight; else
/// one step less than the brightest neighbour.
pub open spec fn broken_light(w: Map<u32, ChunkView>, pos: Vector3) -> u8 {
    let brightest = max_neighbor_light(w, pos, 0);
    let above = match neighbor(pos, 4) {
        Some(n) => sunlight_at(w, n),
        None => 0u8,
    };
    if brightest == 0 {
        0
    } else if above == 15 {
        15
    } else {
        (brightest - 1) as u8
    }
}

/// What breaking the block at `pos` does to the light: the emptied cell
/// takes the light of its surroundings and a raising wave starts from it.
pub open spec fn flood_from_broken(w: Map<u32, ChunkView>, pos: Vector3) -> LightWave {
    let wave = raise_flood(with_sunlight(w, pos, broken_light(w, pos)), seq![pos]);
    LightWave { world: wave.world, touched: seq![pos] + wave.touched }
}

/// Lets sunlight into the cell at `pos`, whose block was just broken, and
/// lists the slices whose light changed, the cell's own first.
pub fn flood_lights_from_broken(chunks: &mut ChunkMap, pos: Vector3) -> (touched: Vec<Vector3>)
    ensures
        world_wf(old(chunks)@),
        final(chunks)@ == flood_from_broken(old(chunks)@, pos).world,
        touched@ == collect_slices(Seq::empty(), flood_from_broken(old(chunks)@, pos).touched),
        world_wf(final(chunks)@),
{
    let ghost start = chunks@;
    chunks.well_formed();
    let mut brightest: u8 = 0;
    let mut above: u8 = 0;
    let mut i: usize = 6;
    while i > 0
        invariant
            i <= 6,
            chunks@ == start,
            world_wf(chunks@),
            brightest == max_neighbor_light(start, pos, i as int),
            brightest <= 15,
            above <= 15,
            above == if i <= 4 {
                match neighbor(pos, 4) {
                    Some(n) => sunlight_at(start, n),
                    None => 0u8,
                }
            } else {
                0u8
            },
        decreases i,
    {
        i = i - 1;
        let here = match neighbor_at(pos, i) {
            Some(n) => chunks.sunlight_at(n),
            None => 0,
        };
        if i == 4 {
            above = here;
        }
        if here >= brightest {
            brightest = here;
        }
    }
    let value: u8 = if brightest == 0 {
        0
    } else if above == 15 {
        15
    } else {
        brightest - 1
    };
    let mut touched: Vec<Vector3> = Vec::new();
    let mut queue: VecDeque<Vector3> = VecDeque::new();
    chunks.set_sunlight_at(pos, value);
    queue.push_back(pos);
    note_slice(&mut touched, pos);
    assert(queue@ =~= seq![pos]);
    let ghost wave = raise_flood(chunks@, queue@);
    raise_wave(chunks, queue, &mut touched);
    proof {
        lemma_collect_slices_append(Seq::empty(), seq![pos], wave.touched);
    }
    touched
}

/// Lights the column of `p` from `p` downwards: every block that lets light
/// through takes full sunlight, down to the first one that stands on a
/// block that stops light; from that one a raising wave starts. A block that
/// stops light ends the column at once.
pub open spec fn flood_column(w: Map<u32, ChunkView>, p: Vector3) -> Map<u32, ChunkView>
    decreases p.y + 1,
{
    if p.y < 0 {
        w
    } else {
        match block_at(w, p) {
            Some(b) => if b.kind.transparent_spec() {
                let lit = with_sunlight(w, p, 15);
                let below = Vector3 { x: p.x, y: (p.y - 1) as i32, z: p.z };
                match block_at(lit, below) {
                    Some(floor) => if floor.kind.transparent_spec() {
                        flood_column(lit, below)
                    } else {
                        raise_flood(lit, seq![p]).world
                    },
                    None => flood_column(lit, below),
                }
            } else {
                w
            },
            None => w,
        }
    }
}

/// The top of column `n` of the chunk at `position`; the columns are counted
/// x by x and in each x z by z.
pub open spec fn column_top(position: crate::vector::Vector2, n: int) -> Vector3 {
    Vector3 {
        x: (position.x * 16 + n / 16) as i32,
        y: 255,
        z: (position.y * 16 + n % 16) as i32,
    }
}

/// Lights the columns `n..256` of the chunk at `position`, one after the other.
pub open spec fn flood_columns(w: Map<u32, ChunkView>, position: crate::vector::Vector2, n: int) -> Map<
    u32,
    ChunkView,
>
    decreases 256 - n,
{
    if n < 0 || n >= 256 {
        w
    } else {
        flood_columns(flood_column(w, column_top(position, n)), position, n + 1)
    }
}

/// The first lighting of the chunk stored under `chunk_index`: all its
/// columns are lit from the sky; nothing happens where no chunk is stored.
pub open spec fn flood_chunk(w: Map<u32, ChunkView>, chunk_index: u32) -> Map<u32, ChunkView> {
    if w.contains_key(chunk_index) {
        flood_columns(w, w[chunk_index].position, 0)
    } else {
        w
    }
}

/// Lights the block at `p` from above. Hands back the position below where
/// the light falls on, and nothing where the column ends at `p`.
fn flood_lights_block(chunks: &mut ChunkMap, p: Vector3) -> (next: Option<Vector3>)
    requires
        0 <= p.y <= 255,
    ensures
        world_wf(old(chunks)@),
        world_wf(final(chunks)@),
        match next {
            Some(below) => below == (Vector3 { x: p.x, y: (p.y - 1) as i32, z: p.z })
                && flood_column(old(chunks)@, p) == flood_column(final(chunks)@, below),
            None => flood_column(old(chunks)@, p) == final(chunks)@,
        },
{
    chunks.well_formed();
    let ghost before = chunks@;
    let transparent = match chunks.block_at(p) {
        Some(b) => b.has_partial_transparency(),
        None => false,
    };
    if !transparent {
        return None;
    }
    chunks.set_sunlight_at(p, 15);
    let ghost lit = chunks@;
    let below = Vector3::new(p.x, p.y - 1, p.z);
    let floor_stops_light = match chunks.block_at(below) {
        Some(b) => !b.has_partial_transparency(),
        None => false,
    };
    if floor_stops_light {
        let mut queue: VecDeque<Vector3> = VecDeque::new();
        let mut touched: Vec<Vector3> = Vec::new();
        queue.push_back(p);
        assert(queue@ =~= seq![p]);
        raise_wave(chunks, queue, &mut touched);
        None
    } else {
        Some(below)
    }
}

/// Lights one column from `top` downwards.
pub fn flood_lights_column(chunks: &mut ChunkMap, top: Vector3)
    requires
        top.y <= 255,
    ensures
        world_wf(old(chunks)@),
        final(chunks)@ == flood_column(old(chunks)@, top),
        world_wf(final(chunks)@),
{
    chunks.well_formed();
    let ghost target = flood_column(chunks@, top);
    let mut p = top;
    let mut falling = true;
    while falling && p.y >= 0
        invariant
            world_wf(chunks@),
            p.y <= 255,
            falling ==> flood_column(chunks@, p) == target,
            !falling ==> chunks@ == target,
        decreases (if falling { 1int } else { 0int }) + p.y + 1,
    {
        match flood_lights_block(chunks, p) {
            Some(below) => {
                p = below;
            },
            None => {
                falling = false;
            },
        }
    }
}

/// The first lighting of a chunk from the sky.
pub fn flood_lights(chunks: &mut ChunkMap, chunk_index: u32)
    ensures
        world_wf(old(chunks)@),
        final(chunks)@ == flood_chunk(old(chunks)@, chunk_index),
        world_wf(final(chunks)@),
{
    chunks.well_formed();
    let position = match chunks.get(chunk_index) {
        Some(c) => c.position(),
        None => {
            return ;
        },
    };
    let ghost target = flood_chunk(chunks@, chunk_index);
    let mut n: i32 = 0;
    while n < 256
        invariant
            0 <= n <= 256,
            world_wf(chunks@),
            -crate::chunk::CHUNK_COORD_LIMIT <= position.x < crate::chunk::CHUNK_COORD_LIMIT,
            -crate::chunk::CHUNK_COORD_LIMIT <= position.y < crate::chunk::CHUNK_COORD_LIMIT,
            flood_columns(chunks@, position, n as int) == target,
        decreases 256 - n,
    {
        let top = Vector3::new(position.x * 16 + n / 16, 255, position.y * 16 + n % 16);
        assert(top == column_top(position, n as int));
        flood_lights_column(chunks, top);
        n = n + 1;
    }
}

} // verus!
