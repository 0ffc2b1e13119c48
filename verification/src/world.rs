use vstd::prelude::*;
use std::collections::HashMap;
use std::sync::Arc;
use crate::blocks::Block;
use crate::chunk::{Chunk, ChunkView, ChunkState, Quad, chunk_key, cell_index, xz_to_index, lemma_cell_index};
use crate::vector::{Vector2, Vector3, div16, rem16};

verus! {

broadcast use vstd::std_specs::hash::group_hash_axioms;

/// A world is well formed when each of its chunks is, and each is stored
/// under the key of its own position.
pub open spec fn world_wf(w: Map<u32, ChunkView>) -> bool {
    forall|k: u32|
        w.contains_key(k) ==> (#[trigger] w[k]).wf() && chunk_key(
            w[k].position.x as int,
            w[k].position.y as int,
        ) == k
}

/// The loaded chunk that holds the world column `(x, z)`.
pub open spec fn chunk_at(w: Map<u32, ChunkView>, x: int, z: int) -> Option<ChunkView> {
    let k = chunk_key(x / 16, z / 16);
    if w.contains_key(k) && w[k].position.x == x / 16 && w[k].position.y == z / 16 {
        Some(w[k])
    } else {
        None
    }
}

/// The block at a world position: none above or below the world, and none
/// where no chunk is loaded.
pub open spec fn block_at(w: Map<u32, ChunkView>, p: Vector3) -> Option<Block> {
    if 0 <= p.y <= 255 {
        match chunk_at(w, p.x as int, p.z as int) {
            Some(c) => Some(c.block(p.x as int % 16, p.y as int, p.z as int % 16)),
            None => None,
        }
    } else {
        None
    }
}

/// The sunlight at a world position, 0 where there is no block.
pub open spec fn sunlight_at(w: Map<u32, ChunkView>, p: Vector3) -> u8 {
    match block_at(w, p) {
        Some(b) => b.sunlight_intensity,
        None => 0,
    }
}

/// The world with the sunlight of the block at `p` replaced; the same world
/// where there is no such block.
pub open spec fn with_sunlight(w: Map<u32, ChunkView>, p: Vector3, intensity: u8) -> Map<
    u32,
    ChunkView,
> {
    if block_at(w, p).is_some() {
        let k = chunk_key(p.x as int / 16, p.z as int / 16);
        w.insert(
            k,
            w[k].with_sunlight(cell_index(p.x as int % 16, p.y as int, p.z as int % 16), intensity),
        )
    } else {
        w
    }
}

/// The world with `block` stored at its own position; the same world where
/// no loaded chunk accepts it.
pub open spec fn with_block(w: Map<u32, ChunkView>, block: Block) -> Map<u32, ChunkView> {
    let p = block.absolute_position;
    if block.wf() && block_at(w, p).is_some() {
        let k = chunk_key(p.x as int / 16, p.z as int / 16);
        w.insert(
            k,
            w[k].with_block(cell_index(p.x as int % 16, p.y as int, p.z as int % 16), block),
        )
    } else {
        w
    }
}

/// The world with slice `slice` of the chunk at `(cx, cz)` marked ready and
/// its transparent quads kept; the same world where there is no such slice.
pub open spec fn with_ready(
    w: Map<u32, ChunkView>,
    cx: int,
    cz: int,
    slice: int,
    quads: Seq<Quad>,
) -> Map<u32, ChunkView> {
    if 0 <= slice < 16 && chunk_at(w, cx * 16, cz * 16).is_some() {
        let k = chunk_key(cx, cz);
        w.insert(
            k,
            ChunkView {
                states: w[k].states.update(slice, ChunkState::Ready),
                transparent_quads: w[k].transparent_quads.update(slice, quads),
                ..w[k]
            },
        )
    } else {
        w
    }
}

/// The world after the chunk under `key` was noted as lit; the same world
/// where no chunk is stored under that key.
pub open spec fn with_lit(w: Map<u32, ChunkView>, key: u32) -> Map<u32, ChunkView> {
    if w.contains_key(key) {
        w.insert(key, w[key].lit())
    } else {
        w
    }
}

/// `Arc::unwrap_or_clone` of std: hands out the chunk behind a handle, the
/// chunk itself where the handle is the last one, else a clone made by
/// `Chunk::clone`, which keeps the view. Either way the result equals what
/// the handle showed.
#[verifier::external_body]
fn take_or_clone(handle: Arc<Chunk>) -> (chunk: Chunk)
    ensures
        chunk@ == handle@,
{
    Arc::unwrap_or_clone(handle)
}

/// Sets the sunlight of one block in a map of chunk handles.
fn set_sunlight_in(map: &mut HashMap<u32, Arc<Chunk>>, x: i32, y: u32, z: i32, val: u8)
    requires
        world_wf(views_of(old(map)@)),
        val <= 15,
        y <= 255,
    ensures
        views_of(final(map)@) == with_sunlight(
            views_of(old(map)@),
            Vector3 { x, y: y as i32, z },
            val,
        ),
        world_wf(views_of(final(map)@)),
{
    let chunk_x = div16(x);
    let chunk_z = div16(z);
    let key = xz_to_index(chunk_x, chunk_z);
    let ghost before = map@;
    match map.remove(&key) {
        Some(handle) => {
            let mut chunk = take_or_clone(handle);
            let position = chunk.position();
            if position.x == chunk_x && position.y == chunk_z {
                chunk.set_sunlight_intensity_at(rem16(x), y, rem16(z), val);
            }
            let ghost after = chunk@;
            map.insert(key, Arc::new(chunk));
            assert(views_of(map@) =~= views_of(before).insert(key, after));
            assert(views_of(map@) =~= with_sunlight(
                views_of(before),
                Vector3 { x, y: y as i32, z },
                val,
            ));
        },
        None => {
            assert(views_of(map@) =~= views_of(before));
        },
    }
}

/// Stores a block at its own position in a map of chunk handles.
fn set_block_in(map: &mut HashMap<u32, Arc<Chunk>>, block: Block) -> (stored: bool)
    requires
        world_wf(views_of(old(map)@)),
    ensures
        views_of(final(map)@) == with_block(views_of(old(map)@), block),
        stored == (block.wf() && block_at(views_of(old(map)@), block.absolute_position).is_some()),
        world_wf(views_of(final(map)@)),
{
    let p = block.absolute_position;
    let chunk_x = div16(p.x);
    let chunk_z = div16(p.z);
    let key = xz_to_index(chunk_x, chunk_z);
    let ghost before = map@;
    match map.remove(&key) {
        Some(handle) => {
            let mut chunk = take_or_clone(handle);
            let position = chunk.position();
            let stored = chunk.set_block(block);
            let ghost after = chunk@;
            map.insert(key, Arc::new(chunk));
            proof {
                assert(views_of(map@) =~= views_of(before).insert(key, after));
                if stored {
                    assert(block.relative_position.x as int == p.x as int % 16);
                    assert(block.relative_position.z as int == p.z as int % 16);
                }
                assert(views_of(map@) =~= with_block(views_of(before), block));
            }
            stored
        },
        None => {
            assert(views_of(map@) =~= views_of(before));
            false
        },
    }
}

/// Notes a chunk as lit in a map of chunk handles.
fn mark_lit_in(map: &mut HashMap<u32, Arc<Chunk>>, key: u32)
    requires
        world_wf(views_of(old(map)@)),
    ensures
        views_of(final(map)@) == with_lit(views_of(old(map)@), key),
        world_wf(views_of(final(map)@)),
{
    let ghost before = map@;
    match map.remove(&key) {
        Some(handle) => {
            let mut chunk = take_or_clone(handle);
            chunk.mark_lit();
            let ghost after = chunk@;
            map.insert(key, Arc::new(chunk));
            assert(views_of(map@) =~= views_of(before).insert(key, after));
        },
        None => {
            assert(views_of(map@) =~= views_of(before));
        },
    }
}

/// Marks a slice ready in a map of chunk handles.
fn mark_ready_in(map: &mut HashMap<u32, Arc<Chunk>>, x: i32, z: i32, slice: u32, quads: Vec<Quad>) -> (done: bool)
    requires
        world_wf(views_of(old(map)@)),
    ensures
        views_of(final(map)@) == with_ready(
            views_of(old(map)@),
            x as int,
            z as int,
            slice as int,
            quads@,
        ),
        done == (slice < 16 && chunk_at(views_of(old(map)@), x as int * 16, z as int * 16).is_some()),
        world_wf(views_of(final(map)@)),
{
    assert((x as int * 16) / 16 == x as int);
    assert((z as int * 16) / 16 == z as int);
    if slice >= 16 {
        return false;
    }
    let key = xz_to_index(x, z);
    let ghost before = map@;
    match map.remove(&key) {
        Some(handle) => {
            let mut chunk = take_or_clone(handle);
            let position = chunk.position();
            let found = position.x == x && position.y == z;
            if found {
                chunk.set_state(slice as usize, ChunkState::Ready);
                chunk.set_transparent_quads(slice as usize, quads);
            }
            let ghost after = chunk@;
            map.insert(key, Arc::new(chunk));
            proof {
                assert(views_of(map@) =~= views_of(before).insert(key, after));
                assert(views_of(map@) =~= with_ready(
                    views_of(before),
                    x as int,
                    z as int,
                    slice as int,
                    quads@,
                ));
            }
            found
        },
        None => {
            assert(views_of(map@) =~= views_of(before));
            false
        },
    }
}

/// The loaded chunks, each behind a shared handle and under the key of its
/// position. A clone is a snapshot: it shares the chunks and is not touched
/// by later changes to the map it was taken from.
pub struct ChunkMap {
    map: HashMap<u32, Arc<Chunk>>,
}

/// A map of chunk handles as plain data.
pub open spec fn views_of(m: Map<u32, Arc<Chunk>>) -> Map<u32, ChunkView> {
    Map::new(|k: u32| m.contains_key(k), |k: u32| m[k]@)
}

impl View for ChunkMap {
    type V = Map<u32, ChunkView>;

    closed spec fn view(&self) -> Map<u32, ChunkView> {
        views_of(self.map@)
    }
}

impl Clone for ChunkMap {
    fn clone(&self) -> (r: Self)
        ensures
            r@ == self@,
    {
        proof {
            use_type_invariant(self);
        }
        ChunkMap { map: self.map.clone() }
    }
}

impl ChunkMap {
    #[verifier::type_invariant]
    spec fn inv(&self) -> bool {
        world_wf(self@)
    }

    /// An empty world.
    pub fn new() -> (r: Self)
        ensures
            r@ == Map::<u32, ChunkView>::empty(),
    {
        let r = ChunkMap { map: HashMap::new() };
        assert(r@ =~= Map::<u32, ChunkView>::empty());
        r
    }

    /// Every chunk map in hand is well formed: this brings the fact into a proof.
    pub fn well_formed(&self)
        ensures
            world_wf(self@),
    {
        proof {
            use_type_invariant(self);
        }
    }

    /// The number of loaded chunks.
    pub fn len(&self) -> (r: usize)
        ensures
            r == self@.len(),
    {
        proof {
            use_type_invariant(self);
            assert(self@.dom() =~= self.map@.dom());
        }
        self.map.len()
    }

    /// Whether a chunk is stored under a key.
    pub fn contains_key(&self, chunk_index: u32) -> (r: bool)
        ensures
            r == self@.contains_key(chunk_index),
    {
        self.map.contains_key(&chunk_index)
    }

    /// The chunk stored under a key.
    pub fn get(&self, chunk_index: u32) -> (r: Option<&Arc<Chunk>>)
        ensures
            world_wf(self@),
            r matches Some(c) ==> self@.contains_key(chunk_index) && c@ == self@[chunk_index],
            r is None ==> !self@.contains_key(chunk_index),
    {
        proof {
            use_type_invariant(self);
        }
        self.map.get(&chunk_index)
    }

    /// Stores `chunk` under the key of its position and hands back the
    /// chunk that was there.
    pub fn insert(&mut self, chunk: Arc<Chunk>) -> (r: Option<Arc<Chunk>>)
        ensures
            final(self)@ == old(self)@.insert(
                chunk_key(chunk@.position.x as int, chunk@.position.y as int),
                chunk@,
            ),
            match r {
                Some(c) => old(self)@.contains_key(
                    chunk_key(chunk@.position.x as int, chunk@.position.y as int),
                ) && c@ == old(self)@[chunk_key(chunk@.position.x as int, chunk@.position.y as int)],
                None => !old(self)@.contains_key(
                    chunk_key(chunk@.position.x as int, chunk@.position.y as int),
                ),
            },
            world_wf(final(self)@),
    {
        proof {
            use_type_invariant(&*self);
        }
        let position = chunk.position();
        let key = xz_to_index(position.x, position.y);
        let mut map = HashMap::new();
        std::mem::swap(&mut self.map, &mut map);
        let ghost before = map@;
        let r = map.insert(key, chunk);
        assert(views_of(map@) =~= views_of(before).insert(key, chunk@));
        self.map = map;
        r
    }

    /// The loaded chunk at a chunk coordinate.
    pub fn chunk_at(&self, chunk_x: i32, chunk_z: i32) -> (r: Option<&Arc<Chunk>>)
        ensures
            match r {
                Some(c) => {
                    &&& self@.contains_key(chunk_key(chunk_x as int, chunk_z as int))
                    &&& self@[chunk_key(chunk_x as int, chunk_z as int)] == c@
                    &&& c@.position == (Vector2 { x: chunk_x, y: chunk_z })
                },
                None => !self@.contains_key(chunk_key(chunk_x as int, chunk_z as int)) || self@[chunk_key(
                    chunk_x as int,
                    chunk_z as int,
                )].position != (Vector2 { x: chunk_x, y: chunk_z }),
            },
    {
        let key = xz_to_index(chunk_x, chunk_z);
        match self.map.get(&key) {
            Some(chunk) => {
                assert(self@.contains_key(key) && self@[key] == chunk@);
                let position = chunk.position();
                if position.x == chunk_x && position.y == chunk_z {
                    Some(chunk)
                } else {
                    None
                }
            },
            None => {
                assert(!self@.contains_key(key));
                None
            },
        }
    }

    /// The block at a world position.
    #[verifier::rlimit(50)]
    pub fn get_block_at_absolute(&self, x: i32, y: i32, z: i32) -> (r: Option<&Block>)
        ensures
            match r {
                Some(b) => block_at(self@, Vector3 { x, y, z }) == Some(*b),
                None => block_at(self@, Vector3 { x, y, z }).is_none(),
            },
    {
        if y < 0 || y > 255 {
            return None;
        }
        match self.chunk_at(div16(x), div16(z)) {
            Some(chunk) => {
                let local_x = rem16(x);
                let local_z = rem16(z);
                let block = chunk.get_block_at(local_x, y as u32, local_z);
                assert(chunk_at(self@, x as int, z as int) == Some(chunk@));
                assert(local_x as int % 16 == x as int % 16);
                assert(local_z as int % 16 == z as int % 16);
                Some(block)
            },
            None => {
                assert(chunk_at(self@, x as int, z as int).is_none());
                None
            },
        }
    }

    /// The block at a world position.
    pub fn block_at(&self, p: Vector3) -> (r: Option<&Block>)
        ensures
            world_wf(self@),
            match r {
                Some(b) => block_at(self@, p) == Some(*b) && b.wf(),
                None => block_at(self@, p).is_none(),
            },
    {
        self.well_formed();
        let r = self.get_block_at_absolute(p.x, p.y, p.z);
        proof {
            if r.is_some() {
                let c = chunk_at(self@, p.x as int, p.z as int).unwrap();
                lemma_cell_index(p.x as int % 16, p.y as int, p.z as int % 16);
                assert(c.cells[cell_index(p.x as int % 16, p.y as int, p.z as int % 16)].wf());
            }
        }
        r
    }

    /// The sunlight at a world position, 0 where there is no block.
    pub fn sunlight_at(&self, p: Vector3) -> (r: u8)
        ensures
            world_wf(self@),
            r == sunlight_at(self@, p),
            r <= 15,
    {
        match self.block_at(p) {
            Some(b) => b.get_sunlight_intensity(),
            None => 0,
        }
    }

    /// Sets the sunlight at a world position, where there is a block.
    pub fn set_sunlight_at(&mut self, p: Vector3, val: u8)
        requires
            val <= 15,
        ensures
            final(self)@ == with_sunlight(old(self)@, p, val),
            world_wf(final(self)@),
    {
        proof {
            use_type_invariant(&*self);
        }
        if p.y < 0 || p.y > 255 {
            return ;
        }
        let mut map = HashMap::new();
        std::mem::swap(&mut self.map, &mut map);
        set_sunlight_in(&mut map, p.x, p.y as u32, p.z, val);
        self.map = map;
    }

    /// Stores `block` at its own position, where the block is well formed
    /// and a loaded chunk holds that position. Tells whether it was stored.
    pub fn set_block(&mut self, block: Block) -> (stored: bool)
        ensures
            final(self)@ == with_block(old(self)@, block),
            stored == (block.wf() && block_at(old(self)@, block.absolute_position).is_some()),
            world_wf(final(self)@),
    {
        proof {
            use_type_invariant(&*self);
        }
        let mut map = HashMap::new();
        std::mem::swap(&mut self.map, &mut map);
        let stored = set_block_in(&mut map, block);
        self.map = map;
        stored
    }

    /// Notes the chunk under `chunk_index` as lit: its slices that waited
    /// for light now wait for their mesh.
    pub fn mark_lit(&mut self, chunk_index: u32)
        ensures
            final(self)@ == with_lit(old(self)@, chunk_index),
            world_wf(final(self)@),
    {
        proof {
            use_type_invariant(&*self);
        }
        let mut map = HashMap::new();
        std::mem::swap(&mut self.map, &mut map);
        mark_lit_in(&mut map, chunk_index);
        self.map = map;
    }

    /// Marks slice `slice` of the chunk at `(x, z)` ready and keeps its
    /// transparent quads. Tells whether there is such a slice.
    pub fn mark_ready(&mut self, x: i32, z: i32, slice: u32, quads: Vec<Quad>) -> (done: bool)
        ensures
            final(self)@ == with_ready(old(self)@, x as int, z as int, slice as int, quads@),
            done == (slice < 16 && chunk_at(old(self)@, x as int * 16, z as int * 16).is_some()),
            world_wf(final(self)@),
    {
        proof {
            use_type_invariant(&*self);
        }
        let mut map = HashMap::new();
        std::mem::swap(&mut self.map, &mut map);
        let done = mark_ready_in(&mut map, x, z, slice, quads);
        self.map = map;
        done
    }

    /// The sunlight at a world position, 0 where there is no block.
    pub fn get_sunlight_intensity_at(&self, x: i32, y: u32, z: i32) -> (r: u8)
        ensures
            y <= 255 ==> r == sunlight_at(self@, Vector3 { x, y: y as i32, z }),
            y > 255 ==> r == 0,
            r <= 15,
    {
        if y > 255 {
            return 0;
        }
        self.sunlight_at(Vector3 { x, y: y as i32, z })
    }

    /// Sets the sunlight at a world position, where there is a block.
    pub fn set_sunlight_intensity_at(&mut self, x: i32, y: u32, z: i32, val: u8)
        requires
            val <= 15,
        ensures
            y <= 255 ==> final(self)@ == with_sunlight(
                old(self)@,
                Vector3 { x, y: y as i32, z },
                val,
            ),
            y > 255 ==> final(self)@ == old(self)@,
            world_wf(final(self)@),
    {
        proof {
            use_type_invariant(&*self);
        }
        if y > 255 {
            return ;
        }
        let mut map = HashMap::new();
        std::mem::swap(&mut self.map, &mut map);
        set_sunlight_in(&mut map, x, y, z, val);
        self.map = map;
    }
}

} // verus!
