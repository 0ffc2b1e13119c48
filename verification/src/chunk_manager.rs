use vstd::prelude::*;
use std::collections::HashMap;
use std::sync::Arc;
use crate::binarymesher::{binary_mesh, quad_indices, quad_views, slice_mesh, MeshStageType};
use crate::blocks::{Block, Blocks, BlockTextures, create_block_default, fresh_block};
use crate::chunk::{
    Chunk,
    ChunkBuffers,
    ChunkView,
    Quad,
    SliceBuffers,
    SliceBuffersView,
    chunk_key,
    lemma_chunk_key_injective,
    xz_to_index,
};
use crate::chunkactionqueue::{ChunkAction, ChunkActionQueue, with_update};
use crate::lighting::{
    collect_slices,
    flood_chunk,
    flood_from_broken,
    flood_from_placed,
    insert_unique,
    slice_of,
};
use crate::nearest::{sort_by_distance, sort_nearest_first};
use crate::surfacevertex::SurfaceVertex;
use crate::vector::{Vector2, Vector3, div16, rem16};
use crate::world::{ChunkMap, block_at, sunlight_at, with_block, with_lit, with_ready};

verus! {

/// How many edits are applied in one frame.
pub const MAX_ACTIONS: u32 = 15;

/// The block at a world position.
pub fn get_block_at_absolute(x: i32, y: i32, z: i32, chunks: &ChunkMap) -> (r: Option<&Block>)
    ensures
        match r {
            Some(b) => block_at(chunks@, Vector3 { x, y, z }) == Some(*b),
            None => block_at(chunks@, Vector3 { x, y, z }).is_none(),
        },
{
    chunks.get_block_at_absolute(x, y, z)
}

/// Meshes a slice for the solid and for the transparent pass. Of the solid
/// pass the vertices, the indices and their number are handed back, of the
/// transparent pass also the record of every quad.
pub fn mesh_slice_arrayed(
    chunk_x: i32,
    chunk_z: i32,
    y_slice: u32,
    chunks: &ChunkMap,
    textures: &BlockTextures,
) -> (mesh: ((Vec<SurfaceVertex>, Vec<u32>, u32), (Vec<SurfaceVertex>, Vec<u32>, u32, Vec<Quad>)))
    ensures
        mesh.0.0@ == slice_mesh(
            chunks@,
            chunk_x as int,
            chunk_z as int,
            y_slice as int,
            MeshStageType::Solid,
            *textures,
        ).vertices,
        mesh.0.1@ == quad_indices((mesh.0.0@.len() / 4) as nat),
        mesh.0.2 == mesh.0.1@.len(),
        mesh.1.0@ == slice_mesh(
            chunks@,
            chunk_x as int,
            chunk_z as int,
            y_slice as int,
            MeshStageType::Transparent,
            *textures,
        ).vertices,
        mesh.1.1@ == quad_indices((mesh.1.0@.len() / 4) as nat),
        mesh.1.2 == mesh.1.1@.len(),
        quad_views(mesh.1.3@) == slice_mesh(
            chunks@,
            chunk_x as int,
            chunk_z as int,
            y_slice as int,
            MeshStageType::Transparent,
            *textures,
        ).quads,
{
    let solid = binary_mesh(chunk_x, chunk_z, y_slice, chunks, MeshStageType::Solid, textures);
    let transparent = binary_mesh(
        chunk_x,
        chunk_z,
        y_slice,
        chunks,
        MeshStageType::Transparent,
        textures,
    );
    ((solid.0, solid.1, solid.2), transparent)
}

/// Appends the six indices `start + shifts[i]`.
pub fn push_n(vec: &mut Vec<u32>, start: u32, shifts: [u32; 6])
    requires
        forall|i: int| 0 <= i < 6 ==> start + #[trigger] shifts[i] <= u32::MAX,
    ensures
        final(vec)@ == old(vec)@ + Seq::new(6, |i: int| (start + shifts[i]) as u32),
{
    let mut i: usize = 0;
    while i < 6
        invariant
            i <= 6,
            forall|k: int| 0 <= k < 6 ==> start + #[trigger] shifts[k] <= u32::MAX,
            vec@ == old(vec)@ + Seq::new(i as nat, |k: int| (start + shifts[k]) as u32),
        decreases 6 - i,
    {
        let ghost before = vec@;
        vec.push(start + shifts[i]);
        i = i + 1;
        assert(vec@ =~= old(vec)@ + Seq::new(i as nat, |k: int| (start + shifts[k]) as u32));
    }
}

/// The world after the first lighting of the chunk under `key`: the chunk
/// is lit from the sky, and its slices that waited for light now wait for
/// their mesh.
pub open spec fn light_chunk(w: Map<u32, ChunkView>, key: u32) -> Map<u32, ChunkView> {
    with_lit(flood_chunk(w, key), key)
}

/// Lights the chunk under `key` for the first time.
fn light_chunk_in(chunks: &mut ChunkMap, key: u32)
    ensures
        final(chunks)@ == light_chunk(old(chunks)@, key),
{
    crate::lighting::flood_lights(chunks, key);
    chunks.mark_lit(key);
}

/// The slice coordinate next to `d` that an edit at the local coordinate
/// `local` touches: the one before at 0, the one after at 15, `d` itself
/// in between.
pub open spec fn edge_neighbor(local: int, d: int) -> int {
    if local == 0 {
        d - 1
    } else if local == 15 {
        d + 1
    } else {
        d
    }
}

/// The slices across the faces that the block at `pos` lies on: the
/// neighbour along x, then along y, then along z, each only where the
/// block touches it and where it exists.
pub open spec fn border_slices(pos: Vector3) -> Seq<Vector3> {
    let own = slice_of(pos);
    let along_x = Vector3 { x: edge_neighbor(pos.x as int % 16, own.x as int) as i32, ..own };
    let along_y = Vector3 { y: edge_neighbor(pos.y as int % 16, own.y as int) as i32, ..own };
    let along_z = Vector3 { z: edge_neighbor(pos.z as int % 16, own.z as int) as i32, ..own };
    (if along_x != own {
        seq![along_x]
    } else {
        Seq::empty()
    }) + (if along_y != own && 0 <= along_y.y < 16 {
        seq![along_y]
    } else {
        Seq::empty()
    }) + (if along_z != own {
        seq![along_z]
    } else {
        Seq::empty()
    })
}

/// The point from which the slices to mesh again are ordered: the slice
/// of the edit, moved across each face that the edited block lies on.
pub open spec fn edit_reference(pos: Vector3) -> Vector3 {
    let own = slice_of(pos);
    Vector3 {
        x: edge_neighbor(pos.x as int % 16, own.x as int) as i32,
        y: edge_neighbor(pos.y as int % 16, own.y as int) as i32,
        z: edge_neighbor(pos.z as int % 16, own.z as int) as i32,
    }
}

/// The list with each of the slices added at the end, unless it is there.
pub open spec fn insert_all_unique(acc: Seq<Vector3>, slices: Seq<Vector3>) -> Seq<Vector3>
    decreases slices.len(),
{
    if slices.len() == 0 {
        acc
    } else {
        insert_all_unique(insert_unique(acc, slices[0]), slices.skip(1))
    }
}

/// The slices to mesh again after an edit at `pos`, nearest first: those
/// whose light changed, the slice of the edit, and the slices across the
/// faces that the edited block lies on.
pub open spec fn remesh_list(touched: Seq<Vector3>, pos: Vector3) -> Seq<Vector3> {
    sort_by_distance(
        insert_all_unique(insert_unique(touched, slice_of(pos)), border_slices(pos)),
        edit_reference(pos),
    )
}

/// The queue after the meshing of each of the slices was requested.
pub open spec fn with_mesh_requests(q: Seq<ChunkAction>, slices: Seq<Vector3>) -> Seq<ChunkAction>
    decreases slices.len(),
{
    if slices.len() == 0 {
        q
    } else {
        with_mesh_requests(with_update(q, ChunkAction::UpdateChunkMesh(slices[0])), slices.skip(1))
    }
}

fn add_unique(list: &mut Vec<Vector3>, s: Vector3)
    ensures
        final(list)@ == insert_unique(old(list)@, s),
{
    let mut i: usize = 0;
    while i < list.len()
        invariant
            i <= list@.len(),
            list@ == old(list)@,
            forall|j: int| 0 <= j < i ==> list@[j] != s,
        decreases list@.len() - i,
    {
        if list[i] == s {
            assert(list@.contains(s));
            return ;
        }
        i = i + 1;
    }
    assert(!list@.contains(s));
    list.push(s);
}

/// Lists the slices to mesh again after an edit at `pos`.
fn slices_to_remesh(touched: Vec<Vector3>, pos: Vector3) -> (list: Vec<Vector3>)
    ensures
        list@ == remesh_list(touched@, pos),
{
    let mut list = touched;
    let own = Vector3::new(div16(pos.x), div16(pos.y), div16(pos.z));
    assert(own == slice_of(pos));
    let xrem = rem16(pos.x);
    let yrem = rem16(pos.y);
    let zrem = rem16(pos.z);
    let nx = if xrem == 0 {
        own.x - 1
    } else if xrem == 15 {
        own.x + 1
    } else {
        own.x
    };
    let ny = if yrem == 0 {
        own.y - 1
    } else if yrem == 15 {
        own.y + 1
    } else {
        own.y
    };
    let nz = if zrem == 0 {
        own.z - 1
    } else if zrem == 15 {
        own.z + 1
    } else {
        own.z
    };
    add_unique(&mut list, own);
    let ghost start = list@;
    let ghost border = border_slices(pos);
    let ghost a = if nx != own.x {
        seq![Vector3 { x: nx, ..own }]
    } else {
        Seq::<Vector3>::empty()
    };
    let ghost b = if ny != own.y && 0 <= ny < 16 {
        seq![Vector3 { y: ny, ..own }]
    } else {
        Seq::<Vector3>::empty()
    };
    let ghost c = if nz != own.z {
        seq![Vector3 { z: nz, ..own }]
    } else {
        Seq::<Vector3>::empty()
    };
    assert(border == a + b + c);
    if nx != own.x {
        add_unique(&mut list, Vector3::new(nx, own.y, own.z));
    }
    assert(list@ == insert_all_unique(start, a)) by {
        reveal_with_fuel(insert_all_unique, 2);
        assert(a.skip(1) =~= Seq::<Vector3>::empty() || a.len() == 0);
    }
    let ghost after_a = list@;
    if ny != own.y && 0 <= ny && ny < 16 {
        add_unique(&mut list, Vector3::new(own.x, ny, own.z));
    }
    assert(list@ == insert_all_unique(after_a, b)) by {
        reveal_with_fuel(insert_all_unique, 2);
        assert(b.skip(1) =~= Seq::<Vector3>::empty() || b.len() == 0);
    }
    let ghost after_b = list@;
    if nz != own.z {
        add_unique(&mut list, Vector3::new(own.x, own.y, nz));
    }
    assert(list@ == insert_all_unique(after_b, c)) by {
        reveal_with_fuel(insert_all_unique, 2);
        assert(c.skip(1) =~= Seq::<Vector3>::empty() || c.len() == 0);
    }
    proof {
        lemma_insert_all_unique_append(start, a, b);
        lemma_insert_all_unique_append(start, a + b, c);
    }
    let reference = Vector3::new(nx, ny, nz);
    assert(reference == edit_reference(pos));
    sort_nearest_first(&list, reference)
}

/// Adding two lists of slices one after the other is adding their concatenation.
pub proof fn lemma_insert_all_unique_append(acc: Seq<Vector3>, a: Seq<Vector3>, b: Seq<Vector3>)
    ensures
        insert_all_unique(acc, a + b) == insert_all_unique(insert_all_unique(acc, a), b),
    decreases a.len(),
{
    if a.len() == 0 {
        assert(a + b =~= b);
    } else {
        assert((a + b).skip(1) =~= a.skip(1) + b);
        lemma_insert_all_unique_append(insert_unique(acc, a[0]), a.skip(1), b);
    }
}

/// Requests the meshing of each of the slices.
fn request_meshes(queue: &mut ChunkActionQueue, slices: &Vec<Vector3>)
    ensures
        final(queue)@ == with_mesh_requests(old(queue)@, slices@),
{
    let ghost target = with_mesh_requests(queue@, slices@);
    let mut i: usize = 0;
    assert(slices@.skip(0) =~= slices@);
    while i < slices.len()
        invariant
            i <= slices@.len(),
            with_mesh_requests(queue@, slices@.skip(i as int)) == target,
        decreases slices@.len() - i,
    {
        let ghost left = slices@.skip(i as int);
        assert(left[0] == slices@[i as int]);
        assert(left.skip(1) =~= slices@.skip(i as int + 1));
        queue.update_chunk_mesh(slices[i]);
        i = i + 1;
    }
}

/// Whether `after` is the record `before` with the geometry of a slice
/// stored; a record that has no place for the slice stays as it is.
pub open spec fn record_with_mesh(
    before: ChunkBuffers,
    after: ChunkBuffers,
    slice: int,
    solid: SliceBuffersView,
    transparent: SliceBuffersView,
) -> bool {
    &&& after.position == before.position
    &&& after.slice_vertex_buffers == before.slice_vertex_buffers
    &&& after.solid_buffers@.len() == before.solid_buffers@.len()
    &&& after.transparent_buffers@.len() == before.transparent_buffers@.len()
    &&& if 0 <= slice < before.solid_buffers@.len() && slice < before.transparent_buffers@.len() {
        &&& after.solid_buffers@[slice].is_some() && after.solid_buffers@[slice].unwrap()@ == solid
        &&& after.transparent_buffers@[slice].is_some() && after.transparent_buffers@[slice].unwrap()@
            == transparent
        &&& forall|i: int|
            0 <= i < before.solid_buffers@.len() && i != slice ==> #[trigger] after.solid_buffers@[i]
                == before.solid_buffers@[i]
        &&& forall|i: int|
            0 <= i < before.transparent_buffers@.len() && i != slice
                ==> #[trigger] after.transparent_buffers@[i] == before.transparent_buffers@[i]
    } else {
        &&& after.solid_buffers@ == before.solid_buffers@
        &&& after.transparent_buffers@ == before.transparent_buffers@
    }
}

/// Whether `after` is what is to be drawn in `before` with the geometry
/// of a slice stored in the record under `key`, where there is one.
pub open spec fn buffers_with_mesh(
    before: Map<u32, ChunkBuffers>,
    after: Map<u32, ChunkBuffers>,
    key: u32,
    slice: int,
    solid: SliceBuffersView,
    transparent: SliceBuffersView,
) -> bool {
    &&& after.dom() == before.dom()
    &&& forall|k: u32| k != key && before.contains_key(k) ==> #[trigger] after[k] == before[k]
    &&& before.contains_key(key) ==> record_with_mesh(
        before[key],
        after[key],
        slice,
        solid,
        transparent,
    )
}

/// A meshing job for a worker: the slice, and a snapshot of the world as
/// it was when the job was made.
pub struct MeshJob {
    pub chunk_x: i32,
    pub chunk_z: i32,
    pub y_slice: u32,
    pub chunks: ChunkMap,
}

/// The same as plain data.
pub struct MeshJobView {
    pub chunk_x: i32,
    pub chunk_z: i32,
    pub y_slice: u32,
    pub world: Map<u32, ChunkView>,
}

impl View for MeshJob {
    type V = MeshJobView;

    open spec fn view(&self) -> MeshJobView {
        MeshJobView {
            chunk_x: self.chunk_x,
            chunk_z: self.chunk_z,
            y_slice: self.y_slice,
            world: self.chunks@,
        }
    }
}

/// A list of jobs as plain data.
pub open spec fn job_views(jobs: Seq<MeshJob>) -> Seq<MeshJobView> {
    Seq::new(jobs.len(), |i: int| jobs[i]@)
}

/// The owner of the world: the chunks, what is to be drawn of them, the
/// pending edits and recomputations, the blocks that wait for chunks to
/// come, and the slices that are being meshed by a worker.
pub struct ChunkManager {
    pub chunks: ChunkMap,
    pub chunk_buffers: HashMap<u32, ChunkBuffers>,
    pub render_distance: u32,
    pub seed: u32,
    pub action_queue: ChunkActionQueue,
    pub update_queue: ChunkActionQueue,
    pub extra_blocks: HashMap<u32, Vec<Block>>,
    pub unresolved_meshes: Vec<Vector3>,
}

/// What the frame step reads and changes of a manager, as plain data.
pub struct ManagerView {
    pub world: Map<u32, ChunkView>,
    pub actions: Seq<ChunkAction>,
    pub updates: Seq<ChunkAction>,
    pub unresolved: Seq<Vector3>,
}

/// The manager after the block at `pos` was broken: the cell holds air,
/// light has entered it, and the slices around it are to be meshed again.
/// Nothing happens where no block is loaded at `pos`.
pub open spec fn after_break(s: ManagerView, pos: Vector3) -> ManagerView {
    if block_at(s.world, pos).is_some() {
        let wave = flood_from_broken(with_block(s.world, fresh_block(Blocks::AIR, pos)), pos);
        ManagerView {
            world: wave.world,
            updates: with_mesh_requests(
                s.updates,
                remesh_list(collect_slices(Seq::empty(), wave.touched), pos),
            ),
            ..s
        }
    } else {
        s
    }
}

/// The manager after `block` was placed at its own position: the cell
/// holds the block, the light that passed through the cell before is
/// taken back, and the slices around it are to be meshed again. Nothing
/// happens where the block is not well formed or no block is loaded at
/// its position.
pub open spec fn after_place(s: ManagerView, block: Block) -> ManagerView {
    let pos = block.absolute_position;
    if block.wf() && block_at(s.world, pos).is_some() {
        let wave = flood_from_placed(with_block(s.world, block), pos, sunlight_at(s.world, pos));
        ManagerView {
            world: wave.world,
            updates: with_mesh_requests(
                s.updates,
                remesh_list(collect_slices(Seq::empty(), wave.touched), pos),
            ),
            ..s
        }
    } else {
        s
    }
}

/// The manager after one pending action of the edit queue was handled: an
/// edit is applied; a recomputation that strayed into the edit queue is
/// handed on to the queue of recomputations.
pub open spec fn after_action(s: ManagerView, action: ChunkAction) -> ManagerView {
    match action {
        ChunkAction::BreakBlock(pos) => after_break(s, pos),
        ChunkAction::PlaceBlock(block) => after_place(s, block),
        _ => ManagerView { updates: with_update(s.updates, action), ..s },
    }
}

/// The manager after at most `n` pending actions of the edit queue were
/// handled, oldest first.
pub open spec fn after_edits(s: ManagerView, n: nat) -> ManagerView
    decreases n,
{
    if n == 0 || s.actions.len() == 0 {
        s
    } else {
        after_edits(
            after_action(ManagerView { actions: s.actions.skip(1), ..s }, s.actions[0]),
            (n - 1) as nat,
        )
    }
}

/// What the recomputations of one frame yield: the manager afterwards,
/// and the meshing jobs to hand to the workers, in order.
pub struct FrameUpdates {
    pub state: ManagerView,
    pub jobs: Seq<MeshJobView>,
}

/// The recomputations of one frame. Requests are taken from the queue,
/// oldest first, until one chunk has been lit or the queue is empty. A
/// request to mesh a slice that no worker is meshing becomes a job with a
/// snapshot of the world, and the slice is noted as being meshed; a
/// request for a slice that is being meshed is dropped. An edit that
/// strayed into this queue is handed back to the edit queue.
pub open spec fn after_updates(s: ManagerView) -> FrameUpdates
    decreases s.updates.len(),
{
    if s.updates.len() == 0 {
        FrameUpdates { state: s, jobs: Seq::empty() }
    } else {
        let rest = ManagerView { updates: s.updates.skip(1), ..s };
        match s.updates[0] {
            ChunkAction::UpdateChunkMesh(p) => {
                if p.y < 0 || s.unresolved.contains(p) {
                    after_updates(rest)
                } else {
                    let more = after_updates(
                        ManagerView { unresolved: s.unresolved.push(p), ..rest },
                    );
                    FrameUpdates {
                        state: more.state,
                        jobs: seq![
                            MeshJobView {
                                chunk_x: p.x,
                                chunk_z: p.z,
                                y_slice: p.y as u32,
                                world: s.world,
                            },
                        ] + more.jobs,
                    }
                }
            },
            ChunkAction::UpdateChunkLighting(p) => FrameUpdates {
                state: ManagerView {
                    world: light_chunk(rest.world, chunk_key(p.x as int, p.y as int)),
                    ..rest
                },
                jobs: Seq::empty(),
            },
            edit => after_updates(ManagerView { actions: rest.actions.push(edit), ..rest }),
        }
    }
}

impl View for ChunkManager {
    type V = ManagerView;

    open spec fn view(&self) -> ManagerView {
        ManagerView {
            world: self.chunks@,
            actions: self.action_queue@,
            updates: self.update_queue@,
            unresolved: self.unresolved_meshes@,
        }
    }
}

impl ChunkManager {
    /// Whether render distance, seed and waiting blocks are those of `before`.
    pub open spec fn settings_kept(&self, before: &ChunkManager) -> bool {
        &&& self.render_distance == before.render_distance
        &&& self.seed == before.seed
        &&& self.extra_blocks@ == before.extra_blocks@
    }

    /// Whether what is to be drawn is as it was in `before`.
    pub open spec fn buffers_kept(&self, before: &ChunkManager) -> bool {
        self.chunk_buffers@ == before.chunk_buffers@
    }

    /// A manager of an empty world, with a render distance of 5.
    pub fn new() -> (r: Self)
        ensures
            r@.world == Map::<u32, ChunkView>::empty(),
            r@.actions.len() == 0,
            r@.updates.len() == 0,
            r@.unresolved.len() == 0,
            r.render_distance == 5,
            r.seed == 6744464,
            r.chunk_buffers@.len() == 0,
            r.extra_blocks@.len() == 0,
    {
        ChunkManager {
            chunks: ChunkMap::new(),
            chunk_buffers: HashMap::new(),
            render_distance: 5,
            seed: 6744464,
            action_queue: ChunkActionQueue::new(),
            update_queue: ChunkActionQueue::new(),
            extra_blocks: HashMap::new(),
            unresolved_meshes: Vec::new(),
        }
    }

    /// The block at a world position.
    pub fn get_block_at_absolute(&self, x: i32, y: i32, z: i32) -> (r: Option<&Block>)
        ensures
            match r {
                Some(b) => block_at(self.chunks@, Vector3 { x, y, z }) == Some(*b),
                None => block_at(self.chunks@, Vector3 { x, y, z }).is_none(),
            },
    {
        self.chunks.get_block_at_absolute(x, y, z)
    }

    /// The sunlight at a world position, 0 where there is no block.
    pub fn get_sunlight_intensity_at(x: i32, y: u32, z: i32, chunks: &ChunkMap) -> (r: u8)
        ensures
            y <= 255 ==> r == sunlight_at(chunks@, Vector3 { x, y: y as i32, z }),
            y > 255 ==> r == 0,
            r <= 15,
    {
        chunks.get_sunlight_intensity_at(x, y, z)
    }

    /// Sets the sunlight at a world position, where there is a block.
    pub fn set_sunlight_intensity_at(x: i32, y: u32, z: i32, chunks: &mut ChunkMap, val: u8)
        requires
            val <= 15,
        ensures
            y <= 255 ==> final(chunks)@ == crate::world::with_sunlight(
                old(chunks)@,
                Vector3 { x, y: y as i32, z },
                val,
            ),
            y > 255 ==> final(chunks)@ == old(chunks)@,
    {
        chunks.set_sunlight_intensity_at(x, y, z, val);
    }

    /// Takes back the light around a block that was just placed at `pos`.
    pub fn flood_lights_from_placed(&mut self, pos: Vector3, prevsun: u8) -> (touched: Vec<Vector3>)
        ensures
            final(self).chunks@ == flood_from_placed(old(self).chunks@, pos, prevsun).world,
            touched@ == collect_slices(
                Seq::empty(),
                flood_from_placed(old(self).chunks@, pos, prevsun).touched,
            ),
            final(self)@ == (ManagerView { world: final(self).chunks@, ..old(self)@ }),
            final(self).settings_kept(old(self)),
            final(self).buffers_kept(old(self)),
    {
        crate::lighting::flood_lights_from_placed(&mut self.chunks, pos, prevsun)
    }

    /// Lets light into the cell at `pos`, whose block was just broken.
    pub fn flood_lights_from_broken(&mut self, pos: Vector3) -> (touched: Vec<Vector3>)
        ensures
            final(self).chunks@ == flood_from_broken(old(self).chunks@, pos).world,
            touched@ == collect_slices(Seq::empty(), flood_from_broken(old(self).chunks@, pos).touched),
            final(self)@ == (ManagerView { world: final(self).chunks@, ..old(self)@ }),
            final(self).settings_kept(old(self)),
            final(self).buffers_kept(old(self)),
    {
        crate::lighting::flood_lights_from_broken(&mut self.chunks, pos)
    }

    /// The first lighting of the chunk stored under `chunk_index`: it is lit
    /// from the sky, and its slices that waited for light now wait for
    /// their mesh.
    pub fn flood_lights(&mut self, chunk_index: u32)
        ensures
            final(self).chunks@ == light_chunk(old(self).chunks@, chunk_index),
            final(self)@ == (ManagerView { world: final(self).chunks@, ..old(self)@ }),
            final(self).settings_kept(old(self)),
            final(self).buffers_kept(old(self)),
    {
        light_chunk_in(&mut self.chunks, chunk_index)
    }

    /// Breaks the block at `(x, y, z)`.
    pub fn break_block(&mut self, x: i32, y: u32, z: i32)
        ensures
            y <= 255 ==> final(self)@ == after_break(old(self)@, Vector3 { x, y: y as i32, z }),
            y > 255 ==> final(self)@ == old(self)@,
            final(self).settings_kept(old(self)),
            final(self).buffers_kept(old(self)),
    {
        if y > 255 {
            return ;
        }
        let pos = Vector3::new(x, y as i32, z);
        let air = create_block_default(Blocks::AIR, pos);
        if !self.chunks.set_block(air) {
            return ;
        }
        let touched = crate::lighting::flood_lights_from_broken(&mut self.chunks, pos);
        let list = slices_to_remesh(touched, pos);
        request_meshes(&mut self.update_queue, &list);
    }

    /// Places `block` at its own position.
    pub fn place_block(&mut self, block: Block)
        ensures
            final(self)@ == after_place(old(self)@, block),
            final(self).settings_kept(old(self)),
            final(self).buffers_kept(old(self)),
    {
        let pos = block.get_absolute_position();
        let prevsun = self.chunks.sunlight_at(pos);
        if !self.chunks.set_block(block) {
            return ;
        }
        let touched = crate::lighting::flood_lights_from_placed(&mut self.chunks, pos, prevsun);
        let list = slices_to_remesh(touched, pos);
        request_meshes(&mut self.update_queue, &list);
    }

    /// Handles the oldest action of the edit queue, if there is one.
    pub fn apply_next_action(&mut self) -> (applied: bool)
        ensures
            applied == (old(self)@.actions.len() > 0),
            applied ==> final(self)@ == after_action(
                ManagerView { actions: old(self)@.actions.skip(1), ..old(self)@ },
                old(self)@.actions[0],
            ),
            !applied ==> final(self)@ == old(self)@,
            final(self).settings_kept(old(self)),
            final(self).buffers_kept(old(self)),
    {
        match self.action_queue.get_next_action() {
            Some(ChunkAction::BreakBlock(pos)) => {
                if pos.y >= 0 {
                    self.break_block(pos.x, pos.y as u32, pos.z);
                }
                true
            },
            Some(ChunkAction::PlaceBlock(block)) => {
                self.place_block(block);
                true
            },
            Some(ChunkAction::UpdateChunkLighting(p)) => {
                self.update_queue.update_chunk_lighting(p);
                true
            },
            Some(ChunkAction::UpdateChunkMesh(p)) => {
                self.update_queue.update_chunk_mesh(p);
                true
            },
            None => false,
        }
    }

    /// The step of one frame: at most fifteen pending edits are applied,
    /// then recomputations are run until one chunk has been lit or none is
    /// left. Hands back the meshing jobs to pass to the workers.
    pub fn on_frame_action(&mut self) -> (jobs: Vec<MeshJob>)
        ensures
            final(self)@ == after_updates(after_edits(old(self)@, MAX_ACTIONS as nat)).state,
            job_views(jobs@) == after_updates(after_edits(old(self)@, MAX_ACTIONS as nat)).jobs,
            final(self).settings_kept(old(self)),
            final(self).buffers_kept(old(self)),
    {
        let ghost edited = after_edits(self@, MAX_ACTIONS as nat);
        let mut n: u32 = 0;
        let mut more = true;
        while more && n < MAX_ACTIONS
            invariant
                n <= MAX_ACTIONS,
                more ==> after_edits(self@, (MAX_ACTIONS - n) as nat) == edited,
                !more ==> self@ == edited,
                self.settings_kept(old(self)),
                self.buffers_kept(old(self)),
            decreases (if more { 1int } else { 0int }) + MAX_ACTIONS - n,
        {
            more = self.apply_next_action();
            n = n + 1;
        }
        let ghost target = after_updates(self@);
        let mut jobs: Vec<MeshJob> = Vec::new();
        let mut running = true;
        assert(job_views(jobs@) =~= Seq::<MeshJobView>::empty());
        while running
            invariant
                running ==> after_updates(self@).state == target.state && job_views(jobs@)
                    + after_updates(self@).jobs == target.jobs,
                !running ==> self@ == target.state && job_views(jobs@) == target.jobs,
                self.settings_kept(old(self)),
                self.buffers_kept(old(self)),
            decreases (if running { 1int } else { 0int }) + self@.updates.len(),
        {
            let ghost before = self@;
            let ghost jobs_before = job_views(jobs@);
            match self.update_queue.get_next_action() {
                None => {
                    running = false;
                    assert(jobs_before + after_updates(before).jobs =~= jobs_before);
                },
                Some(ChunkAction::UpdateChunkMesh(p)) => {
                    if p.y >= 0 && !contains_slice(&self.unresolved_meshes, p) {
                        let job = MeshJob {
                            chunk_x: p.x,
                            chunk_z: p.z,
                            y_slice: p.y as u32,
                            chunks: self.chunks.clone(),
                        };
                        let ghost view = job@;
                        jobs.push(job);
                        self.unresolved_meshes.push(p);
                        proof {
                            assert(job_views(jobs@) =~= jobs_before.push(view));
                            let rest = after_updates(self@);
                            assert(after_updates(before).jobs == seq![view] + rest.jobs);
                            assert(job_views(jobs@) + rest.jobs =~= jobs_before + (seq![view]
                                + rest.jobs));
                        }
                    }
                },
                Some(ChunkAction::UpdateChunkLighting(p)) => {
                    light_chunk_in(&mut self.chunks, xz_to_index(p.x, p.y));
                    running = false;
                    assert(jobs_before + after_updates(before).jobs =~= jobs_before);
                },
                Some(ChunkAction::BreakBlock(pos)) => {
                    self.action_queue.break_block(pos);
                },
                Some(ChunkAction::PlaceBlock(block)) => {
                    self.action_queue.place_block(block);
                },
            }
        }
        jobs
    }

    /// Takes in the result of a meshing job: the geometry goes into the
    /// record of what is to be drawn, where the chunk has one; the slice
    /// is marked ready and keeps its transparent quads, where the chunk is
    /// loaded.
    pub fn finalize_mesh(
        &mut self,
        x: i32,
        z: i32,
        slice: u32,
        data: ((Vec<SurfaceVertex>, Vec<u32>, u32), (Vec<SurfaceVertex>, Vec<u32>, u32, Vec<Quad>)),
    )
        ensures
            final(self)@ == (ManagerView {
                world: with_ready(old(self)@.world, x as int, z as int, slice as int, data.1.3@),
                ..old(self)@
            }),
            final(self).settings_kept(old(self)),
            buffers_with_mesh(
                old(self).chunk_buffers@,
                final(self).chunk_buffers@,
                chunk_key(x as int, z as int),
                slice as int,
                SliceBuffersView { vertices: data.0.0@, indices: data.0.1@, index_count: data.0.2 },
                SliceBuffersView { vertices: data.1.0@, indices: data.1.1@, index_count: data.1.2 },
            ),
    {
        broadcast use vstd::std_specs::hash::group_hash_axioms;

        let ((vertices, indices, ilen), (vertices_transparent, indices_transparent, ilen_t, quads)) =
            data;
        let key = xz_to_index(x, z);
        let ghost before = self.chunk_buffers@;
        match self.chunk_buffers.remove(&key) {
            Some(record) => {
                let mut record = record;
                if (slice as usize) < record.solid_buffers.len() && (slice as usize)
                    < record.transparent_buffers.len() {
                    record.set_solid_buffer(
                        slice,
                        SliceBuffers { vertices, indices, index_count: ilen },
                    );
                    record.set_transparent_buffer(
                        slice,
                        SliceBuffers {
                            vertices: vertices_transparent,
                            indices: indices_transparent,
                            index_count: ilen_t,
                        },
                    );
                }
                self.chunk_buffers.insert(key, record);
                assert(self.chunk_buffers@.dom() =~= before.dom());
            },
            None => {
                assert(self.chunk_buffers@ =~= before);
            },
        }
        self.chunks.mark_ready(x, z, slice, quads);
    }
}

/// The first `n` chunk coordinates of the line of chunks at `x`, which
/// runs from `-r` along z, as points in the plane of slice 0.
pub open spec fn chunk_line(x: int, r: int, n: int) -> Seq<Vector3>
    decreases n,
{
    if n <= 0 {
        Seq::empty()
    } else {
        chunk_line(x, r, n - 1).push(Vector3 { x: x as i32, y: 0, z: (n - 1 - r) as i32 })
    }
}

/// The chunk coordinates of the first `m` lines of the square of chunks
/// within the render distance `r` around the origin.
pub open spec fn chunk_square(r: int, m: int) -> Seq<Vector3>
    decreases m,
{
    if m <= 0 {
        Seq::empty()
    } else {
        chunk_square(r, m - 1) + chunk_line(m - 1 - r, r, 2 * r + 1)
    }
}

/// The slices `0..n` of the chunk at `(x, z)`.
pub open spec fn chunk_slices(x: int, z: int, n: int) -> Seq<Vector3>
    decreases n,
{
    if n <= 0 {
        Seq::empty()
    } else {
        chunk_slices(x, z, n - 1).push(Vector3 { x: x as i32, y: (n - 1) as i32, z: z as i32 })
    }
}

/// The slices of the chunks at the given coordinates, chunk by chunk.
pub open spec fn all_slices(chunks: Seq<Vector3>) -> Seq<Vector3>
    decreases chunks.len(),
{
    if chunks.len() == 0 {
        Seq::empty()
    } else {
        all_slices(chunks.drop_last()) + chunk_slices(
            chunks.last().x as int,
            chunks.last().z as int,
            16,
        )
    }
}

/// The world after the first lighting of the chunks at the given
/// coordinates, one after the other.
pub open spec fn flood_all(w: Map<u32, ChunkView>, chunks: Seq<Vector3>) -> Map<u32, ChunkView>
    decreases chunks.len(),
{
    if chunks.len() == 0 {
        w
    } else {
        light_chunk(
            flood_all(w, chunks.drop_last()),
            chunk_key(chunks.last().x as int, chunks.last().z as int),
        )
    }
}

/// The keys of the chunks at the given coordinates.
pub open spec fn keys_of(chunks: Seq<Vector3>) -> Set<u32> {
    Set::new(
        |k: u32|
            exists|i: int|
                0 <= i < chunks.len() && k == chunk_key(
                    (#[trigger] chunks[i]).x as int,
                    chunks[i].z as int,
                ),
    )
}

/// The largest render distance: with it the chunks of the square around
/// the origin can be counted in 32 bits.
pub const RENDER_DISTANCE_LIMIT: u32 = 32767;

/// Lists the chunk coordinates within the render distance `r`.
pub fn chunks_in_range(r: u32) -> (list: Vec<Vector3>)
    requires
        r <= RENDER_DISTANCE_LIMIT,
    ensures
        list@ == chunk_square(r as int, 2 * r + 1),
{
    let r = r as i32;
    let mut list: Vec<Vector3> = Vec::new();
    let mut m: i32 = 0;
    while m < 2 * r + 1
        invariant
            0 <= r <= RENDER_DISTANCE_LIMIT,
            0 <= m <= 2 * r + 1,
            list@ == chunk_square(r as int, m as int),
        decreases 2 * r + 1 - m,
    {
        let ghost before = list@;
        let mut n: i32 = 0;
        while n < 2 * r + 1
            invariant
                0 <= r <= RENDER_DISTANCE_LIMIT,
                0 <= m < 2 * r + 1,
                0 <= n <= 2 * r + 1,
                list@ == before + chunk_line(m - r, r as int, n as int),
            decreases 2 * r + 1 - n,
        {
            list.push(Vector3::new(m - r, 0, n - r));
            n = n + 1;
            assert(list@ =~= before + chunk_line(m - r, r as int, n as int));
        }
        m = m + 1;
    }
    list
}

impl ChunkManager {
    /// Prepares the generation of the world around the chunk at `origin`:
    /// every chunk within the render distance gets a record of what is to
    /// be drawn of it. Hands back the chunks to generate, nearest first.
    pub fn generate_chunks(&mut self, origin: Vector2) -> (requests: Vec<Vector3>)
        requires
            old(self).render_distance <= RENDER_DISTANCE_LIMIT,
        ensures
            requests@ == sort_by_distance(
                chunk_square(old(self).render_distance as int, 2 * old(self).render_distance + 1),
                Vector3 { x: origin.x, y: 0, z: origin.y },
            ),
            final(self).chunk_buffers@.dom() == old(self).chunk_buffers@.dom().union(
                keys_of(requests@),
            ),
            forall|i: int|
                0 <= i < requests@.len() ==> {
                    let record = #[trigger] final(self).chunk_buffers@[chunk_key(
                        requests@[i].x as int,
                        requests@[i].z as int,
                    )];
                    &&& record.solid_buffers@.len() == 16
                    &&& record.transparent_buffers@.len() == 16
                    &&& record.slice_vertex_buffers@.len() == 0
                    &&& forall|s: int| 0 <= s < 16 ==> (#[trigger] record.solid_buffers@[s]).is_none()
                    &&& forall|s: int|
                        0 <= s < 16 ==> (#[trigger] record.transparent_buffers@[s]).is_none()
                    &&& chunk_key(requests@[i].x as int, requests@[i].z as int) < u32::MAX
                        ==> record.position == (Vector2 { x: requests@[i].x, y: requests@[i].z })
                },
            forall|k: u32|
                old(self).chunk_buffers@.contains_key(k) && !keys_of(requests@).contains(k)
                    ==> #[trigger] final(self).chunk_buffers@[k] == old(self).chunk_buffers@[k],
            final(self)@ == old(self)@,
            final(self).settings_kept(old(self)),
    {
        broadcast use vstd::std_specs::hash::group_hash_axioms;

        let candidates = chunks_in_range(self.render_distance);
        let requests = sort_nearest_first(&candidates, Vector3::new(origin.x, 0, origin.y));
        let mut i: usize = 0;
        proof {
            assert(self.chunk_buffers@.dom() =~= old(self).chunk_buffers@.dom().union(
                keys_of(requests@.take(0)),
            ));
        }
        while i < requests.len()
            invariant
                i <= requests@.len(),
                self.chunk_buffers@.dom() == old(self).chunk_buffers@.dom().union(
                    keys_of(requests@.take(i as int)),
                ),
                forall|j: int|
                    0 <= j < i ==> {
                        let record = #[trigger] self.chunk_buffers@[chunk_key(
                            requests@[j].x as int,
                            requests@[j].z as int,
                        )];
                        &&& record.solid_buffers@.len() == 16
                        &&& record.transparent_buffers@.len() == 16
                        &&& record.slice_vertex_buffers@.len() == 0
                        &&& forall|s: int|
                            0 <= s < 16 ==> (#[trigger] record.solid_buffers@[s]).is_none()
                        &&& forall|s: int|
                            0 <= s < 16 ==> (#[trigger] record.transparent_buffers@[s]).is_none()
                        &&& chunk_key(requests@[j].x as int, requests@[j].z as int) < u32::MAX
                            ==> record.position == (Vector2 { x: requests@[j].x, y: requests@[j].z })
                    },
                forall|k: u32|
                    old(self).chunk_buffers@.contains_key(k) && !keys_of(
                        requests@.take(i as int),
                    ).contains(k) ==> #[trigger] self.chunk_buffers@[k] == old(self).chunk_buffers@[k],
                self@ == old(self)@,
                self.settings_kept(old(self)),
            decreases requests@.len() - i,
        {
            let c = requests[i];
            let ghost before = self.chunk_buffers@.dom();
            self.chunk_buffers.insert(xz_to_index(c.x, c.z), ChunkBuffers::new(c.x, c.z));
            proof {
                let key = chunk_key(c.x as int, c.z as int);
                assert forall|j: int|
                    0 <= j < i && chunk_key(requests@[j].x as int, requests@[j].z as int)
                        == key && key < u32::MAX implies requests@[j].x == c.x && requests@[j].z
                    == c.z by {
                    lemma_chunk_key_injective(
                        requests@[j].x as int,
                        requests@[j].z as int,
                        c.x as int,
                        c.z as int,
                    );
                }
                let done = requests@.take(i as int);
                let more = requests@.take(i as int + 1);
                assert(more =~= done.push(c));
                assert(keys_of(more) =~= keys_of(done).insert(key)) by {
                    assert forall|k: u32| keys_of(more).contains(k) implies keys_of(done).insert(
                        key,
                    ).contains(k) by {
                        let j = choose|j: int|
                            0 <= j < more.len() && k == chunk_key(
                                (#[trigger] more[j]).x as int,
                                more[j].z as int,
                            );
                        if j < done.len() {
                            assert(done[j] == more[j]);
                        }
                    }
                    assert forall|k: u32| keys_of(done).insert(key).contains(k) implies keys_of(
                        more,
                    ).contains(k) by {
                        if k == key {
                            assert(more[i as int] == c);
                        } else {
                            let j = choose|j: int|
                                0 <= j < done.len() && k == chunk_key(
                                    (#[trigger] done[j]).x as int,
                                    done[j].z as int,
                                );
                            assert(more[j] == done[j]);
                        }
                    }
                }
                assert(self.chunk_buffers@.dom() =~= old(self).chunk_buffers@.dom().union(
                    keys_of(more),
                ));
            }
            i = i + 1;
        }
        assert(requests@.take(requests@.len() as int) =~= requests@);
        requests
    }

    /// The first lighting of every chunk within the render distance.
    pub fn generate_chunk_illumination(&mut self)
        requires
            old(self).render_distance <= RENDER_DISTANCE_LIMIT,
        ensures
            final(self)@ == (ManagerView {
                world: flood_all(
                    old(self)@.world,
                    chunk_square(
                        old(self).render_distance as int,
                        2 * old(self).render_distance + 1,
                    ),
                ),
                ..old(self)@
            }),
            final(self).settings_kept(old(self)),
            final(self).buffers_kept(old(self)),
    {
        let list = chunks_in_range(self.render_distance);
        let mut i: usize = 0;
        assert(list@.take(0) =~= Seq::<Vector3>::empty());
        while i < list.len()
            invariant
                i <= list@.len(),
                self.settings_kept(old(self)),
                self.buffers_kept(old(self)),
                self@ == (ManagerView {
                    world: flood_all(old(self)@.world, list@.take(i as int)),
                    ..old(self)@
                }),
            decreases list@.len() - i,
        {
            let c = list[i];
            proof {
                assert(list@.take(i as int + 1).drop_last() =~= list@.take(i as int));
                assert(list@.take(i as int + 1).last() == c);
            }
            light_chunk_in(&mut self.chunks, xz_to_index(c.x, c.z));
            i = i + 1;
        }
        assert(list@.take(list@.len() as int) =~= list@);
    }

    /// Makes the jobs that mesh every slice of every chunk within the
    /// render distance, nearest to `origin` first, each with a snapshot of
    /// the world.
    pub fn mesh_chunks(&self, origin: Vector3) -> (jobs: Vec<MeshJob>)
        requires
            self.render_distance <= RENDER_DISTANCE_LIMIT,
        ensures
            ({
                let slices = sort_by_distance(
                    all_slices(chunk_square(self.render_distance as int, 2 * self.render_distance + 1)),
                    origin,
                );
                &&& jobs@.len() == slices.len()
                &&& forall|i: int|
                    0 <= i < jobs@.len() ==> (#[trigger] jobs@[i])@ == (MeshJobView {
                        chunk_x: slices[i].x,
                        chunk_z: slices[i].z,
                        y_slice: slices[i].y as u32,
                        world: self.chunks@,
                    })
            }),
    {
        let list = chunks_in_range(self.render_distance);
        let mut slices: Vec<Vector3> = Vec::new();
        let mut i: usize = 0;
        assert(list@.take(0) =~= Seq::<Vector3>::empty());
        while i < list.len()
            invariant
                i <= list@.len(),
                slices@ == all_slices(list@.take(i as int)),
            decreases list@.len() - i,
        {
            let c = list[i];
            proof {
                assert(list@.take(i as int + 1).drop_last() =~= list@.take(i as int));
                assert(list@.take(i as int + 1).last() == c);
            }
            let ghost before = slices@;
            let mut y: i32 = 0;
            while y < 16
                invariant
                    0 <= y <= 16,
                    slices@ == before + chunk_slices(c.x as int, c.z as int, y as int),
                decreases 16 - y,
            {
                slices.push(Vector3::new(c.x, y, c.z));
                y = y + 1;
                assert(slices@ =~= before + chunk_slices(c.x as int, c.z as int, y as int));
            }
            i = i + 1;
        }
        assert(list@.take(list@.len() as int) =~= list@);
        let sorted = sort_nearest_first(&slices, origin);
        proof {
            lemma_slices_have_heights(list@);
            lemma_sorted_keeps(slices@, origin);
        }
        let mut jobs: Vec<MeshJob> = Vec::with_capacity(sorted.len());
        let mut k: usize = 0;
        while k < sorted.len()
            invariant
                k <= sorted@.len(),
                jobs@.len() == k,
                forall|j: int| 0 <= j < sorted@.len() ==> 0 <= (#[trigger] sorted@[j]).y < 16,
                forall|j: int|
                    0 <= j < k ==> (#[trigger] jobs@[j])@ == (MeshJobView {
                        chunk_x: sorted@[j].x,
                        chunk_z: sorted@[j].z,
                        y_slice: sorted@[j].y as u32,
                        world: self.chunks@,
                    }),
            decreases sorted@.len() - k,
        {
            let s = sorted[k];
            jobs.push(
                MeshJob { chunk_x: s.x, chunk_z: s.z, y_slice: s.y as u32, chunks: self.chunks.clone() },
            );
            k = k + 1;
        }
        jobs
    }

    /// Meshes a slice of a chunk against the manager's world.
    pub fn mesh_slice(&self, chunk: &Chunk, y_slice: u32, textures: &BlockTextures) -> (mesh: (
        SliceBuffers,
        SliceBuffers,
        Vec<Quad>,
    ))
        ensures
            mesh.0@.vertices == slice_mesh(
                self.chunks@,
                chunk@.position.x as int,
                chunk@.position.y as int,
                y_slice as int,
                MeshStageType::Solid,
                *textures,
            ).vertices,
            mesh.0@.indices == quad_indices((mesh.0@.vertices.len() / 4) as nat),
            mesh.0@.index_count == mesh.0@.indices.len(),
            mesh.1@.vertices == slice_mesh(
                self.chunks@,
                chunk@.position.x as int,
                chunk@.position.y as int,
                y_slice as int,
                MeshStageType::Transparent,
                *textures,
            ).vertices,
            mesh.1@.indices == quad_indices((mesh.1@.vertices.len() / 4) as nat),
            mesh.1@.index_count == mesh.1@.indices.len(),
            quad_views(mesh.2@) == slice_mesh(
                self.chunks@,
                chunk@.position.x as int,
                chunk@.position.y as int,
                y_slice as int,
                MeshStageType::Transparent,
                *textures,
            ).quads,
    {
        let position = chunk.position();
        let ((vertices, indices, ilen), (vertices_t, indices_t, ilen_t, quads)) = mesh_slice_arrayed(
            position.x,
            position.y,
            y_slice,
            &self.chunks,
            textures,
        );
        (
            SliceBuffers { vertices, indices, index_count: ilen },
            SliceBuffers { vertices: vertices_t, indices: indices_t, index_count: ilen_t },
            quads,
        )
    }

    /// Takes in a generated chunk: its record of what is to be drawn, a
    /// fresh one where it had none, gets the payloads that place its
    /// slices, and the chunk joins the world. Tells whether the world now
    /// holds as many chunks as lie within the render distance.
    pub fn accept_chunk(&mut self, chunk: Arc<Chunk>) -> (complete: bool)
        requires
            old(self).render_distance <= RENDER_DISTANCE_LIMIT,
        ensures
            final(self)@ == (ManagerView {
                world: old(self)@.world.insert(
                    chunk_key(chunk@.position.x as int, chunk@.position.y as int),
                    chunk@,
                ),
                ..old(self)@
            }),
            complete == (final(self)@.world.len() == (2 * old(self).render_distance + 1) * (2 * old(self).render_distance + 1)),
            final(self).settings_kept(old(self)),
            final(self).chunk_buffers@.dom() == old(self).chunk_buffers@.dom().insert(
                chunk_key(chunk@.position.x as int, chunk@.position.y as int),
            ),
            forall|k: u32|
                k != chunk_key(chunk@.position.x as int, chunk@.position.y as int) && old(self).chunk_buffers@.contains_key(k) ==> #[trigger] final(self).chunk_buffers@[k] == old(self).chunk_buffers@[k],
            ({
                let key = chunk_key(chunk@.position.x as int, chunk@.position.y as int);
                let record = final(self).chunk_buffers@[key];
                &&& record.slice_vertex_buffers@.len() == 16
                &&& forall|y: int|
                    0 <= y < 16 ==> (#[trigger] record.slice_vertex_buffers@[y]).position_sliced@
                        == seq![record.position.x, y as i32, record.position.y]
                &&& if old(self).chunk_buffers@.contains_key(key) {
                    let before = old(self).chunk_buffers@[key];
                    &&& record.position == before.position
                    &&& record.solid_buffers == before.solid_buffers
                    &&& record.transparent_buffers == before.transparent_buffers
                } else {
                    &&& record.position == chunk@.position
                    &&& record.solid_buffers@.len() == 16
                    &&& record.transparent_buffers@.len() == 16
                    &&& forall|s: int| 0 <= s < 16 ==> (#[trigger] record.solid_buffers@[s]).is_none()
                    &&& forall|s: int|
                        0 <= s < 16 ==> (#[trigger] record.transparent_buffers@[s]).is_none()
                }
            }),
    {
        broadcast use vstd::std_specs::hash::group_hash_axioms;

        let position = chunk.position();
        let key = xz_to_index(position.x, position.y);
        let ghost before = self.chunk_buffers@.dom();
        match self.chunk_buffers.remove(&key) {
            Some(record) => {
                let mut record = record;
                record.set_slice_vertex_buffers();
                self.chunk_buffers.insert(key, record);
                assert(self.chunk_buffers@.dom() =~= before.insert(key));
            },
            None => {
                let mut record = ChunkBuffers::new(position.x, position.y);
                record.set_slice_vertex_buffers();
                self.chunk_buffers.insert(key, record);
            },
        }
        self.chunks.insert(chunk);
        let side: usize = 2 * (self.render_distance as usize) + 1;
        assert(side * side <= 65535 * 65535) by (nonlinear_arith)
            requires
                side <= 65535,
        ;
        self.chunks.len() == side * side
    }

    /// Takes in the result of a meshing job: the slice is no longer being
    /// meshed, and the result is stored as by `finalize_mesh`.
    pub fn accept_mesh(
        &mut self,
        x: i32,
        z: i32,
        slice: u32,
        data: ((Vec<SurfaceVertex>, Vec<u32>, u32), (Vec<SurfaceVertex>, Vec<u32>, u32, Vec<Quad>)),
    )
        ensures
            final(self)@.world == with_ready(
                old(self)@.world,
                x as int,
                z as int,
                slice as int,
                data.1.3@,
            ),
            final(self)@.actions == old(self)@.actions,
            final(self)@.updates == old(self)@.updates,
            slice <= i32::MAX ==> final(self)@.unresolved == without_first(
                old(self)@.unresolved,
                Vector3 { x, y: slice as i32, z },
            ),
            slice > i32::MAX ==> final(self)@.unresolved == old(self)@.unresolved,
            final(self).settings_kept(old(self)),
            buffers_with_mesh(
                old(self).chunk_buffers@,
                final(self).chunk_buffers@,
                chunk_key(x as int, z as int),
                slice as int,
                SliceBuffersView { vertices: data.0.0@, indices: data.0.1@, index_count: data.0.2 },
                SliceBuffersView { vertices: data.1.0@, indices: data.1.1@, index_count: data.1.2 },
            ),
    {
        if slice <= 2147483647 {
            let at = Vector3::new(x, slice as i32, z);
            let mut i: usize = 0;
            let mut found = false;
            while !found && i < self.unresolved_meshes.len()
                invariant
                    i <= self.unresolved_meshes@.len(),
                    self.chunks == old(self).chunks,
                    self.action_queue == old(self).action_queue,
                    self.update_queue == old(self).update_queue,
                    self.chunk_buffers == old(self).chunk_buffers,
                    self.settings_kept(old(self)),
                    !found ==> self.unresolved_meshes@ == old(self).unresolved_meshes@,
                    !found ==> forall|j: int| 0 <= j < i ==> self.unresolved_meshes@[j] != at,
                    found ==> self.unresolved_meshes@ == without_first(
                        old(self).unresolved_meshes@,
                        at,
                    ),
                decreases (if found { 0int } else { 1int }) + self.unresolved_meshes@.len() - i,
            {
                if self.unresolved_meshes[i] == at {
                    let ghost before = self.unresolved_meshes@;
                    assert(first_index(before, at, 0) == i) by {
                        lemma_first_index(before, at, 0, i as int);
                    }
                    self.unresolved_meshes.swap_remove(i);
                    found = true;
                } else {
                    i = i + 1;
                }
            }
            proof {
                if !found {
                    lemma_first_index_none(self.unresolved_meshes@, at, 0);
                }
            }
        }
        self.finalize_mesh(x, z, slice, data);
    }
}

/// The place of the first occurrence of `v` in `s` at or behind `from`,
/// the length of `s` where there is none.
pub open spec fn first_index(s: Seq<Vector3>, v: Vector3, from: int) -> int
    decreases s.len() - from,
{
    if from < 0 || from >= s.len() {
        s.len() as int
    } else if s[from] == v {
        from
    } else {
        first_index(s, v, from + 1)
    }
}

/// The list without the first occurrence of `v`: the last element takes
/// its place. The same list where `v` does not occur.
pub open spec fn without_first(s: Seq<Vector3>, v: Vector3) -> Seq<Vector3> {
    let i = first_index(s, v, 0);
    if i >= s.len() {
        s
    } else {
        s.update(i, s.last()).drop_last()
    }
}

proof fn lemma_first_index(s: Seq<Vector3>, v: Vector3, from: int, i: int)
    requires
        0 <= from <= i < s.len(),
        s[i] == v,
        forall|j: int| from <= j < i ==> s[j] != v,
    ensures
        first_index(s, v, from) == i,
    decreases i - from,
{
    if from < i {
        lemma_first_index(s, v, from + 1, i);
    }
}

proof fn lemma_first_index_none(s: Seq<Vector3>, v: Vector3, from: int)
    requires
        0 <= from,
        forall|j: int| from <= j < s.len() ==> s[j] != v,
    ensures
        first_index(s, v, from) == s.len(),
    decreases s.len() - from,
{
    if from < s.len() {
        lemma_first_index_none(s, v, from + 1);
    }
}

proof fn lemma_slices_have_heights(chunks: Seq<Vector3>)
    ensures
        forall|j: int| 0 <= j < all_slices(chunks).len() ==> 0 <= (#[trigger] all_slices(chunks)[j]).y < 16,
    decreases chunks.len(),
{
    if chunks.len() > 0 {
        lemma_slices_have_heights(chunks.drop_last());
        let c = chunks.last();
        lemma_chunk_slices_heights(c.x as int, c.z as int, 16);
        let front = all_slices(chunks.drop_last());
        let back = chunk_slices(c.x as int, c.z as int, 16);
        assert forall|j: int| 0 <= j < all_slices(chunks).len() implies 0 <= (#[trigger] all_slices(
            chunks,
        )[j]).y < 16 by {
            if j < front.len() {
                assert(all_slices(chunks)[j] == front[j]);
            } else {
                assert(all_slices(chunks)[j] == back[j - front.len()]);
            }
        }
    }
}

proof fn lemma_chunk_slices_heights(x: int, z: int, n: int)
    requires
        0 <= n <= 16,
    ensures
        chunk_slices(x, z, n).len() == n,
        forall|j: int| 0 <= j < n ==> 0 <= (#[trigger] chunk_slices(x, z, n)[j]).y < 16,
    decreases n,
{
    if n > 0 {
        lemma_chunk_slices_heights(x, z, n - 1);
    }
}

/// Every element of a list sorted by distance is an element of the list.
proof fn lemma_sorted_keeps(s: Seq<Vector3>, from: Vector3)
    requires
        forall|j: int| 0 <= j < s.len() ==> 0 <= (#[trigger] s[j]).y < 16,
    ensures
        forall|j: int|
            0 <= j < sort_by_distance(s, from).len() ==> 0 <= (#[trigger] sort_by_distance(s, from)[j]).y
                < 16,
{
    broadcast use vstd::seq_lib::group_to_multiset_ensures;

    crate::nearest::lemma_sort_by_distance(s, from);
    let r = sort_by_distance(s, from);
    assert forall|j: int| 0 <= j < r.len() implies 0 <= (#[trigger] r[j]).y < 16 by {
        assert(r.to_multiset().count(r[j]) > 0);
        assert(s.to_multiset().count(r[j]) > 0);
        assert(s.contains(r[j]));
        let k = choose|k: int| 0 <= k < s.len() && s[k] == r[j];
        assert(0 <= s[k].y < 16);
    }
}

fn contains_slice(list: &Vec<Vector3>, p: Vector3) -> (r: bool)
    ensures
        r == list@.contains(p),
{
    let mut i: usize = 0;
    while i < list.len()
        invariant
            i <= list@.len(),
            forall|j: int| 0 <= j < i ==> list@[j] != p,
        decreases list@.len() - i,
    {
        if list[i] == p {
            assert(list@[i as int] == p);
            return true;
        }
        i = i + 1;
    }
    false
}

} // verus!
