use vstd::prelude::*;
use std::collections::HashMap;
use crate::blocks::{Block, Blocks, create_block_default, fresh_block};
use crate::structure_loader::{StructureData, StructureView, get_blocks_for_structure_at_point};
use crate::surfacevertex::SurfaceVertex;
use crate::vector::{Vector2, Vector3};

verus! {

/// Slices per chunk, blocks per slice and blocks per chunk.
pub const SLICES: usize = 16;

pub const SLICE_CELLS: usize = 4096;

pub const CHUNK_CELLS: usize = 65536;

/// Chunk coordinates lie between minus this limit and the limit itself, the
/// limit excluded, so that every block of a chunk, and every block next to
/// the chunk, has a world position inside `i32`.
pub const CHUNK_COORD_LIMIT: i32 = 134217727;

/// The place of block `(x, y, z)` in its slice: x runs fastest, then y, then z.
pub fn local_xyz_to_index(x: u32, y: u32, z: u32) -> (r: u32)
    requires
        z * 256 + y * 16 + x <= u32::MAX,
    ensures
        r == z * 256 + y * 16 + x,
{
    (z * 16 * 16) + (y * 16) + x
}

/// The place of column `(x, z)` in a square of the given width.
pub fn local_xz_to_index_dynamic(x: i32, z: i32, width: i32) -> (r: usize)
    requires
        0 <= width * x + z <= i32::MAX,
        i32::MIN <= width * x <= i32::MAX,
    ensures
        r == width * x + z,
{
    (width * x + z) as usize
}

/// The place of column `(x, z)` in a chunk's 16 by 16 footprint.
pub fn local_xz_to_index(x: u32, z: u32) -> (r: u32)
    requires
        z * 16 + x <= u32::MAX,
    ensures
        r == z * 16 + x,
{
    z * 16 + x
}

/// Folds the integers onto the naturals: 0, -1, 1, -2, 2, ... become 0, 1, 2, 3, 4, ...
pub open spec fn fold_signed(a: int) -> int {
    if a >= 0 {
        2 * a
    } else {
        -2 * a - 1
    }
}

/// Cantor's pairing of two naturals.
#[verifier::opaque]
pub open spec fn cantor_pair(a: int, b: int) -> int {
    (a + b) * (a + b + 1) / 2 + b
}

/// The key under which the chunk at `(x, z)` is stored: the Cantor pairing
/// of the folded coordinates, held at `u32::MAX` where it would exceed it.
pub open spec fn chunk_key(x: int, z: int) -> u32 {
    let paired = cantor_pair(fold_signed(x), fold_signed(z));
    if paired <= u32::MAX {
        paired as u32
    } else {
        u32::MAX
    }
}

/// The key under which the chunk at `(x, z)` is stored.
pub fn xz_to_index(x: i32, z: i32) -> (r: u32)
    ensures
        r == chunk_key(x as int, z as int),
{
    let x0: u128 = if x >= 0 {
        2 * (x as u128)
    } else {
        (2 * (-(x as i128)) - 1) as u128
    };
    let z0: u128 = if z >= 0 {
        2 * (z as u128)
    } else {
        (2 * (-(z as i128)) - 1) as u128
    };
    let sum: u128 = x0 + z0;
    reveal(cantor_pair);
    assert(sum * (sum + 1) <= 0x2_0000_0000 * 0x2_0000_0001) by (nonlinear_arith)
        requires
            0 <= sum <= 0x2_0000_0000,
    ;
    let paired: u128 = sum * (sum + 1) / 2 + z0;
    if paired <= 0xffff_ffff {
        paired as u32
    } else {
        0xffff_ffff
    }
}

/// The pairing is one-to-one: two chunk coordinates whose keys stay below
/// `u32::MAX` and are equal are the same coordinate.
pub proof fn lemma_chunk_key_injective(x1: int, z1: int, x2: int, z2: int)
    requires
        chunk_key(x1, z1) == chunk_key(x2, z2),
        chunk_key(x1, z1) < u32::MAX,
    ensures
        x1 == x2,
        z1 == z2,
{
    let a1 = fold_signed(x1);
    let b1 = fold_signed(z1);
    let a2 = fold_signed(x2);
    let b2 = fold_signed(z2);
    lemma_cantor_nonnegative(a1, b1);
    lemma_cantor_nonnegative(a2, b2);
    assert(cantor_pair(a1, b1) == cantor_pair(a2, b2));
    lemma_cantor_injective(a1, b1, a2, b2);
}

proof fn lemma_triangle(s: int)
    requires
        0 <= s,
    ensures
        2 * (s * (s + 1) / 2) == s * (s + 1),
        (s + 1) * (s + 2) / 2 == s * (s + 1) / 2 + s + 1,
        0 <= s * (s + 1) / 2,
    decreases s,
{
    if s > 0 {
        lemma_triangle(s - 1);
        assert((s - 1) * s + 2 * s == s * (s + 1)) by (nonlinear_arith);
    }
    assert((s + 1) * (s + 2) == s * (s + 1) + 2 * (s + 1)) by (nonlinear_arith);
    assert(0 * (0 + 1) == 0) by (nonlinear_arith);
}

proof fn lemma_triangle_monotone(s: int, t: int)
    requires
        0 <= s < t,
    ensures
        s * (s + 1) / 2 + s + 1 <= t * (t + 1) / 2,
    decreases t - s,
{
    lemma_triangle(s);
    if s + 1 < t {
        lemma_triangle_monotone(s + 1, t);
        lemma_triangle(s + 1);
    }
}

proof fn lemma_cantor_nonnegative(a: int, b: int)
    requires
        0 <= a,
        0 <= b,
    ensures
        0 <= cantor_pair(a, b),
{
    reveal(cantor_pair);
    lemma_triangle(a + b);
}

proof fn lemma_cantor_injective(a1: int, b1: int, a2: int, b2: int)
    requires
        0 <= a1,
        0 <= b1,
        0 <= a2,
        0 <= b2,
        cantor_pair(a1, b1) == cantor_pair(a2, b2),
    ensures
        a1 == a2,
        b1 == b2,
{
    let s1 = a1 + b1;
    let s2 = a2 + b2;
    reveal(cantor_pair);
    if s1 < s2 {
        lemma_triangle_monotone(s1, s2);
    } else if s2 < s1 {
        lemma_triangle_monotone(s2, s1);
    }
}

/// The per-slice payload that tells the shader where a slice stands: chunk
/// x, slice, chunk z.
#[derive(Clone, Copy, Debug)]
pub struct ChunkDataVertex {
    pub position_sliced: [i32; 3],
}

/// How far a slice has come on its way to the screen.
#[derive(Clone, Copy, Debug, PartialEq, Eq, Structural)]
pub enum ChunkState {
    Ready,
    RequiresLighting,
    RequiresMeshing,
}

/// A transparent quad kept for depth sorting: the block it belongs to and
/// its four corners in emission order.
#[derive(Clone, Copy, Debug)]
pub struct Quad {
    pub center: Vector3,
    pub vertices: [SurfaceVertex; 4],
}

/// The place of block `(x, y, z)` in a chunk, for `x` and `z` in `0..16` and
/// `y` in `0..256`: slice after slice, inside a slice as `local_xyz_to_index`.
pub open spec fn cell_index(x: int, y: int, z: int) -> int {
    (y / 16) * 4096 + z * 256 + (y % 16) * 16 + x
}

/// The x, y and z of the block at a place of a chunk.
pub open spec fn cell_x(i: int) -> int {
    i % 16
}

pub open spec fn cell_y(i: int) -> int {
    (i / 4096) * 16 + (i / 16) % 16
}

pub open spec fn cell_z(i: int) -> int {
    (i / 256) % 16
}

/// The world position of the block at place `i` of the chunk at `position`.
pub open spec fn cell_position(position: Vector2, i: int) -> Vector3 {
    Vector3 {
        x: (position.x * 16 + cell_x(i)) as i32,
        y: cell_y(i) as i32,
        z: (position.y * 16 + cell_z(i)) as i32,
    }
}

/// The place of a block of a chunk lies in the chunk and names the block's
/// coordinates again.
pub proof fn lemma_cell_index(x: int, y: int, z: int)
    requires
        0 <= x < 16,
        0 <= y < 256,
        0 <= z < 16,
    ensures
        0 <= cell_index(x, y, z) < 65536,
        cell_x(cell_index(x, y, z)) == x,
        cell_y(cell_index(x, y, z)) == y,
        cell_z(cell_index(x, y, z)) == z,
        cell_index(x, y, z) / 4096 == y / 16,
        cell_index(x, y, z) % 4096 == z * 256 + (y % 16) * 16 + x,
{
    let s = y / 16;
    let r = y % 16;
    let i = cell_index(x, y, z);
    assert(0 <= s < 16 && 0 <= r < 16 && y == 16 * s + r);
    assert(i == 4096 * s + (256 * z + 16 * r + x));
    vstd::arithmetic::div_mod::lemma_fundamental_div_mod_converse(
        i,
        4096,
        s,
        256 * z + 16 * r + x,
    );
    vstd::arithmetic::div_mod::lemma_fundamental_div_mod_converse(i, 16, 256 * s + 16 * z + r, x);
    vstd::arithmetic::div_mod::lemma_fundamental_div_mod_converse(i, 256, 16 * s + z, 16 * r + x);
    vstd::arithmetic::div_mod::lemma_fundamental_div_mod_converse(256 * s + 16 * z + r, 16, 16 * s + z, r);
    vstd::arithmetic::div_mod::lemma_fundamental_div_mod_converse(16 * s + z, 16, s, z);
}

/// The coordinates of a place of a chunk lie in the chunk and name the
/// place again.
pub proof fn lemma_cell_coordinates(i: int)
    requires
        0 <= i < 65536,
    ensures
        0 <= cell_x(i) < 16,
        0 <= cell_y(i) < 256,
        0 <= cell_z(i) < 16,
        cell_index(cell_x(i), cell_y(i), cell_z(i)) == i,
{
    let x = i % 16;
    let a = i / 16;
    let r = a % 16;
    let b = a / 16;
    let z = b % 16;
    let s = b / 16;
    assert(i == 16 * a + x && a == 16 * b + r && b == 16 * s + z);
    assert(0 <= s < 16);
    assert(i == 4096 * s + (256 * z + 16 * r + x));
    vstd::arithmetic::div_mod::lemma_fundamental_div_mod_converse(
        i,
        4096,
        s,
        256 * z + 16 * r + x,
    );
    vstd::arithmetic::div_mod::lemma_fundamental_div_mod_converse(i, 256, 16 * s + z, 16 * r + x);
    assert(i / 256 == b);
    assert(i / 4096 == s);
    let y = cell_y(i);
    assert(y == 16 * s + r);
    vstd::arithmetic::div_mod::lemma_fundamental_div_mod_converse(y, 16, s, r);
}

/// What a chunk is, as plain mathematical data.
pub struct ChunkView {
    pub position: Vector2,
    pub cells: Seq<Block>,
    pub states: Seq<ChunkState>,
    pub transparent_quads: Seq<Seq<Quad>>,
}

impl ChunkView {
    /// A chunk always has 16 slices of 4096 blocks; each block is well
    /// formed and knows the world position of its own cell.
    pub open spec fn wf(self) -> bool {
        &&& -CHUNK_COORD_LIMIT <= self.position.x < CHUNK_COORD_LIMIT
        &&& -CHUNK_COORD_LIMIT <= self.position.y < CHUNK_COORD_LIMIT
        &&& self.cells.len() == CHUNK_CELLS
        &&& self.states.len() == SLICES
        &&& self.transparent_quads.len() == SLICES
        &&& forall|i: int|
            0 <= i < CHUNK_CELLS ==> (#[trigger] self.cells[i]).wf() && self.cells[i].absolute_position
                == cell_position(self.position, i)
    }

    /// The block at `(x, y, z)` of the chunk.
    pub open spec fn block(self, x: int, y: int, z: int) -> Block {
        self.cells[cell_index(x, y, z)]
    }

    /// The chunk with the sunlight of one cell replaced.
    pub open spec fn with_sunlight(self, i: int, intensity: u8) -> ChunkView {
        ChunkView {
            cells: self.cells.update(i, Block { sunlight_intensity: intensity, ..self.cells[i] }),
            ..self
        }
    }

    /// The chunk with one cell replaced.
    pub open spec fn with_block(self, i: int, block: Block) -> ChunkView {
        ChunkView { cells: self.cells.update(i, block), ..self }
    }
}

/// A 16 by 256 by 16 column of blocks, cut into sixteen slices that are lit
/// and meshed one by one.
pub struct Chunk {
    position: Vector2,
    grid: Vec<Vec<Block>>,
    states: Vec<ChunkState>,
    transparent_quads: Vec<Vec<Quad>>,
}

/// Whether a grid has sixteen slices of 4096 blocks.
pub open spec fn grid_shaped(grid: Seq<Vec<Block>>) -> bool {
    &&& grid.len() == SLICES
    &&& forall|s: int| 0 <= s < SLICES ==> (#[trigger] grid[s])@.len() == SLICE_CELLS
}

/// The blocks of a grid in one row, slice after slice.
pub open spec fn grid_cells(grid: Seq<Vec<Block>>) -> Seq<Block> {
    Seq::new(CHUNK_CELLS as nat, |i: int| grid[i / 4096]@[i % 4096])
}

fn grid_set_sunlight(grid: &mut Vec<Vec<Block>>, slice: usize, index: usize, intensity: u8)
    requires
        grid_shaped(old(grid)@),
        slice < SLICES,
        index < SLICE_CELLS,
    ensures
        grid_shaped(final(grid)@),
        grid_cells(final(grid)@) == grid_cells(old(grid)@).update(
            slice * 4096 + index,
            Block {
                sunlight_intensity: intensity,
                ..grid_cells(old(grid)@)[slice * 4096 + index]
            },
        ),
    no_unwind
{
    grid[slice][index].sunlight_intensity = intensity;
    assert(grid_cells(grid@) =~= grid_cells(old(grid)@).update(
        slice * 4096 + index,
        Block { sunlight_intensity: intensity, ..grid_cells(old(grid)@)[slice * 4096 + index] },
    ));
}

fn grid_set_block(grid: &mut Vec<Vec<Block>>, slice: usize, index: usize, block: Block)
    requires
        grid_shaped(old(grid)@),
        slice < SLICES,
        index < SLICE_CELLS,
    ensures
        grid_shaped(final(grid)@),
        grid_cells(final(grid)@) == grid_cells(old(grid)@).update(slice * 4096 + index, block),
    no_unwind
{
    grid[slice][index] = block;
    assert(grid_cells(grid@) =~= grid_cells(old(grid)@).update(slice * 4096 + index, block));
}

fn states_set(states: &mut Vec<ChunkState>, slice: usize, state: ChunkState)
    requires
        slice < old(states)@.len(),
    ensures
        final(states)@ == old(states)@.update(slice as int, state),
    no_unwind
{
    states[slice] = state;
}

impl View for Chunk {
    type V = ChunkView;

    closed spec fn view(&self) -> ChunkView {
        ChunkView {
            position: self.position,
            cells: grid_cells(self.grid@),
            states: self.states@,
            transparent_quads: Seq::new(
                self.transparent_quads@.len(),
                |s: int| self.transparent_quads@[s]@,
            ),
        }
    }
}

impl Clone for Chunk {
    /// A copy of the chunk, block for block.
    fn clone(&self) -> (r: Self)
        ensures
            r@ == self@,
    {
        proof {
            use_type_invariant(self);
        }
        let mut grid: Vec<Vec<Block>> = Vec::with_capacity(SLICES);
        let mut s: usize = 0;
        while s < SLICES
            invariant
                s <= SLICES,
                grid_shaped(self.grid@),
                grid@.len() == s,
                forall|i: int| 0 <= i < s ==> (#[trigger] grid@[i])@ == self.grid@[i]@,
            decreases SLICES - s,
        {
            let slice = self.grid[s].clone();
            assert(slice@ =~= self.grid@[s as int]@);
            grid.push(slice);
            s = s + 1;
        }
        let mut transparent_quads: Vec<Vec<Quad>> = Vec::with_capacity(SLICES);
        let mut q: usize = 0;
        while q < SLICES
            invariant
                q <= SLICES,
                self.transparent_quads@.len() == SLICES,
                transparent_quads@.len() == q,
                forall|i: int|
                    0 <= i < q ==> (#[trigger] transparent_quads@[i])@ == self.transparent_quads@[i]@,
            decreases SLICES - q,
        {
            let quads = self.transparent_quads[q].clone();
            assert(quads@ =~= self.transparent_quads@[q as int]@);
            transparent_quads.push(quads);
            q = q + 1;
        }
        let states = self.states.clone();
        proof {
            assert(states@ =~= self.states@);
            assert(grid_cells(grid@) =~= grid_cells(self.grid@));
            assert(Seq::new(transparent_quads@.len(), |s: int| transparent_quads@[s]@)
                =~= self@.transparent_quads);
        }
        Chunk { position: self.position, grid, states, transparent_quads }
    }
}

impl Chunk {
    #[verifier::type_invariant]
    spec fn inv(&self) -> bool {
        &&& grid_shaped(self.grid@)
        &&& self@.wf()
    }

    /// Every chunk in hand is well formed: this brings the fact into a proof.
    pub fn well_formed(&self)
        ensures
            self@.wf(),
    {
        proof {
            use_type_invariant(self);
        }
    }

    /// The chunk coordinate of the chunk.
    pub fn position(&self) -> (r: Vector2)
        ensures
            r == self@.position,
            self@.wf(),
    {
        proof {
            use_type_invariant(self);
        }
        self.position
    }

    /// The block at `(x, y, z)`; `x` and `z` wrap into the chunk.
    pub fn get_block_at(&self, x: u32, y: u32, z: u32) -> (r: &Block)
        requires
            y < 256,
        ensures
            *r == self@.block(x as int % 16, y as int, z as int % 16),
    {
        proof {
            use_type_invariant(self);
            lemma_cell_index(x as int % 16, y as int, z as int % 16);
        }
        &self.grid[(y / 16) as usize][local_xyz_to_index(x % 16, y % 16, z % 16) as usize]
    }

    /// The height of the highest block of column `(x, z)` that stops light,
    /// looking from the top down to height 1; 0 where there is none.
    pub fn get_surface_block_y(&self, x: u32, z: u32) -> (r: u32)
        requires
            x < 16,
            z < 16,
        ensures
            r < 256,
            r > 0 ==> !self@.block(x as int, r as int, z as int).kind.transparent_spec(),
            forall|y: int| r < y < 256 ==> self@.block(x as int, y, z as int).kind.transparent_spec(),
    {
        proof {
            use_type_invariant(self);
        }
        let mut y: u32 = 255;
        while y >= 1
            invariant
                y < 256,
                x < 16,
                z < 16,
                grid_shaped(self.grid@),
                forall|h: int| y < h < 256 ==> self@.block(x as int, h, z as int).kind.transparent_spec(),
            decreases y,
        {
            proof {
                lemma_cell_index(x as int, y as int, z as int);
            }
            let block = &self.grid[(y / 16) as usize][local_xyz_to_index(x, y % 16, z) as usize];
            if !block.has_partial_transparency() {
                return y;
            }
            y = y - 1;
        }
        0
    }

    /// Sets the sunlight of the block at `(x, y, z)`.
    pub fn set_sunlight_intensity_at(&mut self, x: u32, y: u32, z: u32, intensity: u8)
        requires
            x < 16,
            y < 256,
            z < 16,
            intensity <= 15,
        ensures
            final(self)@ == old(self)@.with_sunlight(
                cell_index(x as int, y as int, z as int),
                intensity,
            ),
            final(self)@.wf(),
    {
        proof {
            use_type_invariant(&*self);
            lemma_cell_index(x as int, y as int, z as int);
        }
        let slice = (y / 16) as usize;
        let index = local_xyz_to_index(x, y % 16, z) as usize;
        grid_set_sunlight(&mut self.grid, slice, index, intensity);
    }

    /// Puts `block` into the cell at its own world position, where that
    /// position lies in this chunk and the block is well formed; otherwise
    /// the chunk stays as it is. Tells whether the block was stored.
    pub fn set_block(&mut self, block: Block) -> (stored: bool)
        ensures
            stored == old(self)@.accepts(block),
            stored ==> final(self)@ == old(self)@.with_block(
                cell_index(
                    block.relative_position.x as int,
                    block.absolute_position.y as int,
                    block.relative_position.z as int,
                ),
                block,
            ),
            !stored ==> final(self)@ == old(self)@,
            final(self)@.wf(),
    {
        proof {
            use_type_invariant(&*self);
        }
        let p = block.absolute_position;
        if !block.is_wf() || p.y < 0 || p.y > 255 || crate::vector::div16(p.x) != self.position.x
            || crate::vector::div16(p.z) != self.position.y {
            return false;
        }
        let x = block.relative_position.x;
        let z = block.relative_position.z;
        let y = p.y as u32;
        proof {
            lemma_cell_index(x as int, y as int, z as int);
        }
        let slice = (y / 16) as usize;
        let index = local_xyz_to_index(x, y % 16, z) as usize;
        grid_set_block(&mut self.grid, slice, index, block);
        true
    }

    /// The mesh state of a slice.
    pub fn state(&self, slice: usize) -> (r: ChunkState)
        requires
            slice < 16,
        ensures
            r == self@.states[slice as int],
    {
        proof {
            use_type_invariant(self);
        }
        self.states[slice]
    }

    /// Sets the mesh state of a slice.
    pub fn set_state(&mut self, slice: usize, state: ChunkState)
        requires
            slice < 16,
        ensures
            final(self)@ == (ChunkView {
                states: old(self)@.states.update(slice as int, state),
                ..old(self)@
            }),
            final(self)@.wf(),
    {
        proof {
            use_type_invariant(&*self);
        }
        states_set(&mut self.states, slice, state);
    }
}

/// The state of a slice once its chunk has been lit: a slice that waited
/// for light now waits for its mesh.
pub open spec fn state_after_lighting(state: ChunkState) -> ChunkState {
    if state == ChunkState::RequiresLighting {
        ChunkState::RequiresMeshing
    } else {
        state
    }
}

/// The states of the slices of a chunk of which the first `n` have been
/// noted as lit.
pub open spec fn states_lit_below(states: Seq<ChunkState>, n: int) -> Seq<ChunkState> {
    Seq::new(
        states.len(),
        |i: int|
            if i < n {
                state_after_lighting(states[i])
            } else {
                states[i]
            },
    )
}

impl Chunk {
    /// Notes that the chunk has been lit: every slice that waited for light
    /// now waits for its mesh.
    pub fn mark_lit(&mut self)
        ensures
            final(self)@ == old(self)@.lit(),
            final(self)@.wf(),
    {
        proof {
            use_type_invariant(&*self);
        }
        let mut slice: usize = 0;
        assert(self@.states =~= states_lit_below(old(self)@.states, 0));
        while slice < SLICES
            invariant
                slice <= SLICES,
                self@.wf(),
                old(self)@.states.len() == SLICES,
                self@ == (ChunkView {
                    states: states_lit_below(old(self)@.states, slice as int),
                    ..old(self)@
                }),
            decreases SLICES - slice,
        {
            let next = match self.state(slice) {
                ChunkState::RequiresLighting => ChunkState::RequiresMeshing,
                other => other,
            };
            self.set_state(slice, next);
            slice = slice + 1;
            assert(self@.states =~= states_lit_below(old(self)@.states, slice as int));
        }
        assert(self@.states =~= old(self)@.lit().states);
    }
}

impl ChunkView {
    /// The chunk once it has been lit: every slice that waited for light
    /// now waits for its mesh.
    pub open spec fn lit(self) -> ChunkView {
        ChunkView {
            states: Seq::new(self.states.len(), |i: int| state_after_lighting(self.states[i])),
            ..self
        }
    }

    /// Whether `block` may be stored in this chunk: it is well formed and
    /// its world position is that of one of the chunk's cells.
    pub open spec fn accepts(self, block: Block) -> bool {
        &&& block.wf()
        &&& 0 <= block.absolute_position.y <= 255
        &&& block.absolute_position.x as int / 16 == self.position.x
        &&& block.absolute_position.z as int / 16 == self.position.y
    }
}

/// What the terrain generator says of one chunk: the surface height of
/// each of its 256 columns, whether each of its 65536 cells is hollowed
/// out by a cave, and on which columns a tree stands. Columns are numbered
/// `z * 16 + x`, cells as in the chunk.
pub struct TerrainSample {
    pub heights: Vec<i32>,
    pub caves: Vec<bool>,
    pub trees: Vec<bool>,
}

impl TerrainSample {
    /// A sample is well formed when it speaks of every column and cell of a chunk.
    pub open spec fn wf(&self) -> bool {
        &&& self.heights@.len() == 256
        &&& self.caves@.len() == CHUNK_CELLS
        &&& self.trees@.len() == 256
    }

    /// Checks that the sample is well formed.
    pub fn is_well_formed(&self) -> (r: bool)
        ensures
            r == self.wf(),
    {
        self.heights.len() == 256 && self.caves.len() == CHUNK_CELLS && self.trees.len() == 256
    }
}

/// The kind of the block at height `y` of a column whose surface lies at
/// `floor`: air in a cave and above the surface; grass on the surface
/// below height 160 and stone on it from there on; stone more than three
/// blocks under the surface; in between dirt below height 100 and stone
/// from there on.
pub open spec fn terrain_kind(y: int, floor: int, is_cave: bool) -> Blocks {
    if is_cave {
        Blocks::AIR
    } else if y == floor && y < 160 {
        Blocks::GRASS
    } else if y + 3 < floor || (y == floor && y >= 160) {
        Blocks::STONE
    } else if y < floor {
        if y < 100 {
            Blocks::DIRT
        } else {
            Blocks::STONE
        }
    } else {
        Blocks::AIR
    }
}

/// The kind of the block at height `abs_y` of a column whose surface lies
/// at `floor_level`.
pub fn classify_terrain(abs_y: i32, floor_level: i32, is_cave: bool) -> (kind: Blocks)
    ensures
        kind == terrain_kind(abs_y as int, floor_level as int, is_cave),
{
    let y = abs_y as i64;
    let floor = floor_level as i64;
    if is_cave {
        Blocks::AIR
    } else if y == floor && y < 160 {
        Blocks::GRASS
    } else if y + 3 < floor || (y == floor && y >= 160) {
        Blocks::STONE
    } else if y < floor {
        if y < 100 {
            Blocks::DIRT
        } else {
            Blocks::STONE
        }
    } else {
        Blocks::AIR
    }
}

/// The block that the terrain puts into cell `i` of the chunk at `position`.
pub open spec fn terrain_cell(position: Vector2, heights: Seq<i32>, caves: Seq<bool>, i: int) -> Block {
    fresh_block(
        terrain_kind(cell_y(i), heights[cell_z(i) * 16 + cell_x(i)] as int, caves[i]),
        cell_position(position, i),
    )
}

/// The chunk with `block` put into the cell at its own position; the same
/// chunk where the block is air or does not belong into the chunk.
pub open spec fn place(c: ChunkView, block: Block) -> ChunkView {
    if block.kind != Blocks::AIR && c.accepts(block) {
        c.with_block(
            cell_index(
                block.relative_position.x as int,
                block.absolute_position.y as int,
                block.relative_position.z as int,
            ),
            block,
        )
    } else {
        c
    }
}

/// The chunk with the blocks placed one after the other.
pub open spec fn place_all(c: ChunkView, blocks: Seq<Block>) -> ChunkView
    decreases blocks.len(),
{
    if blocks.len() == 0 {
        c
    } else {
        place_all(place(c, blocks[0]), blocks.skip(1))
    }
}

/// Where the tree of column `n` of the chunk stands: one block above the
/// surface. Here the columns are counted x by x and in each x z by z.
pub open spec fn tree_root(position: Vector2, heights: Seq<i32>, n: int) -> Vector3 {
    Vector3 {
        x: (position.x * 16 + n / 16) as i32,
        y: (heights[(n % 16) * 16 + n / 16] + 1) as i32,
        z: (position.y * 16 + n % 16) as i32,
    }
}

/// Whether a tree grows on column `n`: the generator wants one, its root
/// lies inside the world, and the whole tree has room in the coordinates.
pub open spec fn tree_grows(
    position: Vector2,
    heights: Seq<i32>,
    trees: Seq<bool>,
    tree: StructureView,
    n: int,
) -> bool {
    &&& trees[(n % 16) * 16 + n / 16]
    &&& 0 <= heights[(n % 16) * 16 + n / 16] + 1 <= 255
    &&& tree.fits_at(tree_root(position, heights, n))
}

/// The blocks of the tree of column `n`, none where no tree grows.
pub open spec fn tree_blocks(
    position: Vector2,
    heights: Seq<i32>,
    trees: Seq<bool>,
    tree: StructureView,
    n: int,
) -> Seq<Block> {
    if tree_grows(position, heights, trees, tree, n) {
        Seq::new(
            tree.volume() as nat,
            |k: int|
                fresh_block(tree.block_kind(k), tree.block_position(tree_root(position, heights, n), k)),
        )
    } else {
        Seq::empty()
    }
}

/// Whether a block lies in the footprint of the chunk at `position`.
pub open spec fn in_footprint(position: Vector2, block: Block) -> bool {
    block.absolute_position.x as int / 16 == position.x && block.absolute_position.z as int / 16
        == position.y
}

/// The blocks that wait for chunks that are not generated yet, by the key
/// of their chunk, as plain data.
pub open spec fn pending_views(m: Map<u32, Vec<Block>>) -> Map<u32, Seq<Block>> {
    Map::new(|k: u32| m.contains_key(k), |k: u32| m[k]@)
}

/// The waiting blocks after `block` has joined those of its chunk.
pub open spec fn stash(extra: Map<u32, Seq<Block>>, block: Block) -> Map<u32, Seq<Block>> {
    let k = chunk_key(
        block.absolute_position.x as int / 16,
        block.absolute_position.z as int / 16,
    );
    if extra.contains_key(k) {
        extra.insert(k, extra[k].push(block))
    } else {
        extra.insert(k, seq![block])
    }
}

/// What becomes of freshly grown blocks: those in the chunk's footprint
/// are kept for the chunk, in order; the others wait for their own chunk.
pub struct Sorted {
    pub own: Seq<Block>,
    pub extra: Map<u32, Seq<Block>>,
}

/// Sorts freshly grown blocks, one after the other.
pub open spec fn sort_blocks(s: Sorted, position: Vector2, blocks: Seq<Block>) -> Sorted
    decreases blocks.len(),
{
    if blocks.len() == 0 {
        s
    } else {
        let b = blocks[0];
        let next = if in_footprint(position, b) {
            Sorted { own: s.own.push(b), extra: s.extra }
        } else {
            Sorted { own: s.own, extra: stash(s.extra, b) }
        };
        sort_blocks(next, position, blocks.skip(1))
    }
}

/// The trees of the columns from `n` on, sorted.
pub open spec fn grow_trees(
    s: Sorted,
    position: Vector2,
    heights: Seq<i32>,
    trees: Seq<bool>,
    tree: StructureView,
    n: int,
) -> Sorted
    decreases 256 - n,
{
    if n < 0 || n >= 256 {
        s
    } else {
        grow_trees(
            sort_blocks(s, position, tree_blocks(position, heights, trees, tree, n)),
            position,
            heights,
            trees,
            tree,
            n + 1,
        )
    }
}

/// The chunk that generation yields: the terrain, then the blocks that
/// waited for this chunk, then the chunk's own trees.
pub open spec fn generated_chunk(
    position: Vector2,
    heights: Seq<i32>,
    caves: Seq<bool>,
    pending: Seq<Block>,
    own: Seq<Block>,
) -> ChunkView {
    place_all(place_all(terrain_chunk(position, heights, caves), pending), own)
}

/// The blocks that wait under `key`, none where nothing waits.
pub open spec fn waiting(extra: Map<u32, Seq<Block>>, key: u32) -> Seq<Block> {
    if extra.contains_key(key) {
        extra[key]
    } else {
        Seq::empty()
    }
}

fn stash_block(extra_blocks: &mut HashMap<u32, Vec<Block>>, block: Block)
    ensures
        pending_views(final(extra_blocks)@) == stash(pending_views(old(extra_blocks)@), block),
{
    broadcast use vstd::std_specs::hash::group_hash_axioms;

    let p = block.absolute_position;
    let key = xz_to_index(crate::vector::div16(p.x), crate::vector::div16(p.z));
    let ghost before = extra_blocks@;
    let mut list = match extra_blocks.remove(&key) {
        Some(list) => list,
        None => Vec::new(),
    };
    list.push(block);
    let ghost after = list@;
    extra_blocks.insert(key, list);
    proof {
        if before.contains_key(key) {
            assert(after =~= before[key]@.push(block));
        } else {
            assert(after =~= seq![block]);
        }
        assert(pending_views(extra_blocks@) =~= stash(pending_views(before), block));
    }
}

fn place_blocks(chunk: &mut Chunk, blocks: &Vec<Block>)
    ensures
        final(chunk)@ == place_all(old(chunk)@, blocks@),
{
    let ghost target = place_all(chunk@, blocks@);
    let mut i: usize = 0;
    assert(blocks@.skip(0) =~= blocks@);
    while i < blocks.len()
        invariant
            i <= blocks@.len(),
            place_all(chunk@, blocks@.skip(i as int)) == target,
        decreases blocks@.len() - i,
    {
        let block = blocks[i];
        let ghost before = chunk@;
        let ghost left = blocks@.skip(i as int);
        assert(left[0] == block);
        assert(left.skip(1) =~= blocks@.skip(i as int + 1));
        match block.kind {
            Blocks::AIR => {},
            _ => {
                chunk.set_block(block);
            },
        }
        assert(chunk@ == place(before, block));
        i = i + 1;
    }
}

/// The chunk of the bare terrain: every slice still to be lit, and no
/// transparent quads.
pub open spec fn terrain_chunk(position: Vector2, heights: Seq<i32>, caves: Seq<bool>) -> ChunkView {
    ChunkView {
        position,
        cells: Seq::new(CHUNK_CELLS as nat, |i: int| terrain_cell(position, heights, caves, i)),
        states: Seq::new(SLICES as nat, |s: int| ChunkState::RequiresLighting),
        transparent_quads: Seq::new(SLICES as nat, |s: int| Seq::<Quad>::empty()),
    }
}

/// Builds the blocks of the bare terrain.
fn terrain_grid(position: Vector2, terrain: &TerrainSample) -> (grid: Vec<Vec<Block>>)
    requires
        -CHUNK_COORD_LIMIT <= position.x < CHUNK_COORD_LIMIT,
        -CHUNK_COORD_LIMIT <= position.y < CHUNK_COORD_LIMIT,
        terrain.wf(),
    ensures
        grid_shaped(grid@),
        grid_cells(grid@) == terrain_chunk(position, terrain.heights@, terrain.caves@).cells,
{
    let ghost heights = terrain.heights@;
    let ghost caves = terrain.caves@;
    let mut grid: Vec<Vec<Block>> = Vec::with_capacity(SLICES);
    let mut slice: usize = 0;
    while slice < SLICES
        invariant
            slice <= SLICES,
            -CHUNK_COORD_LIMIT <= position.x < CHUNK_COORD_LIMIT,
            -CHUNK_COORD_LIMIT <= position.y < CHUNK_COORD_LIMIT,
            terrain.wf(),
            heights == terrain.heights@,
            caves == terrain.caves@,
            grid@.len() == slice,
            forall|s: int| 0 <= s < slice ==> (#[trigger] grid@[s])@.len() == SLICE_CELLS,
            forall|s: int, j: int|
                0 <= s < slice && 0 <= j < SLICE_CELLS ==> (#[trigger] grid@[s]@[j]) == terrain_cell(
                    position,
                    heights,
                    caves,
                    s * 4096 + j,
                ),
        decreases SLICES - slice,
    {
        let mut cells: Vec<Block> = Vec::with_capacity(SLICE_CELLS);
        let mut j: usize = 0;
        while j < SLICE_CELLS
            invariant
                j <= SLICE_CELLS,
                slice < SLICES,
                -CHUNK_COORD_LIMIT <= position.x < CHUNK_COORD_LIMIT,
                -CHUNK_COORD_LIMIT <= position.y < CHUNK_COORD_LIMIT,
                terrain.wf(),
                heights == terrain.heights@,
                caves == terrain.caves@,
                cells@.len() == j,
                forall|k: int|
                    0 <= k < j ==> (#[trigger] cells@[k]) == terrain_cell(
                        position,
                        heights,
                        caves,
                        slice * 4096 + k,
                    ),
            decreases SLICE_CELLS - j,
        {
            let i = slice * 4096 + j;
            proof {
                lemma_cell_coordinates(i as int);
            }
            let x = (i % 16) as i32;
            let y = ((i / 4096) * 16 + (i / 16) % 16) as i32;
            let z = ((i / 256) % 16) as i32;
            let floor_level = terrain.heights[(z * 16 + x) as usize];
            let kind = classify_terrain(y, floor_level, terrain.caves[i]);
            let at = Vector3::new(position.x * 16 + x, y, position.y * 16 + z);
            cells.push(create_block_default(kind, at));
            j = j + 1;
        }
        grid.push(cells);
        slice = slice + 1;
    }
    proof {
        assert forall|i: int| 0 <= i < CHUNK_CELLS implies #[trigger] grid_cells(grid@)[i]
            == terrain_cell(position, heights, caves, i) by {
            assert(i == (i / 4096) * 4096 + i % 4096);
            assert(grid@[i / 4096]@[i % 4096] == terrain_cell(
                position,
                heights,
                caves,
                (i / 4096) * 4096 + i % 4096,
            ));
        }
        assert(grid_cells(grid@) =~= terrain_chunk(position, heights, caves).cells);
    }
    grid
}

/// The terrain of a chunk is a well-formed chunk.
pub proof fn lemma_terrain_chunk_wf(position: Vector2, heights: Seq<i32>, caves: Seq<bool>)
    requires
        -CHUNK_COORD_LIMIT <= position.x < CHUNK_COORD_LIMIT,
        -CHUNK_COORD_LIMIT <= position.y < CHUNK_COORD_LIMIT,
    ensures
        terrain_chunk(position, heights, caves).wf(),
{
    let base = terrain_chunk(position, heights, caves);
    assert forall|i: int| 0 <= i < CHUNK_CELLS implies (#[trigger] base.cells[i]).wf()
        && base.cells[i].absolute_position == cell_position(position, i) by {
        lemma_cell_coordinates(i);
    }
}

/// Grows the trees of a chunk. Hands back the blocks that fall into the
/// chunk's footprint and leaves the others in `extra_blocks`.
fn grow_chunk_trees(
    position: Vector2,
    terrain: &TerrainSample,
    tree: &StructureData,
    extra_blocks: &mut HashMap<u32, Vec<Block>>,
) -> (own: Vec<Block>)
    requires
        -CHUNK_COORD_LIMIT <= position.x < CHUNK_COORD_LIMIT,
        -CHUNK_COORD_LIMIT <= position.y < CHUNK_COORD_LIMIT,
        terrain.wf(),
        tree@.wf(),
    ensures
        (Sorted { own: own@, extra: pending_views(final(extra_blocks)@) }) == grow_trees(
            Sorted { own: Seq::empty(), extra: pending_views(old(extra_blocks)@) },
            position,
            terrain.heights@,
            terrain.trees@,
            tree@,
            0,
        ),
{
    let mut own: Vec<Block> = Vec::new();
    let ghost start = Sorted { own: Seq::empty(), extra: pending_views(extra_blocks@) };
    let ghost target = grow_trees(start, position, terrain.heights@, terrain.trees@, tree@, 0);
    let mut n: usize = 0;
    while n < 256
        invariant
            n <= 256,
            -CHUNK_COORD_LIMIT <= position.x < CHUNK_COORD_LIMIT,
            -CHUNK_COORD_LIMIT <= position.y < CHUNK_COORD_LIMIT,
            terrain.wf(),
            tree@.wf(),
            grow_trees(
                Sorted { own: own@, extra: pending_views(extra_blocks@) },
                position,
                terrain.heights@,
                terrain.trees@,
                tree@,
                n as int,
            ) == target,
        decreases 256 - n,
    {
        let x = (n / 16) as i32;
        let z = (n % 16) as i32;
        let column = (z * 16 + x) as usize;
        let floor_level = terrain.heights[column];
        let ghost blocks_here = tree_blocks(
            position,
            terrain.heights@,
            terrain.trees@,
            tree@,
            n as int,
        );
        let ghost sorted_before = Sorted { own: own@, extra: pending_views(extra_blocks@) };
        let mut grown = false;
        if terrain.trees[column] && floor_level >= -1 && floor_level <= 254 {
            let root = Vector3::new(position.x * 16 + x, floor_level + 1, position.y * 16 + z);
            assert(root == tree_root(position, terrain.heights@, n as int));
            if tree.fits_at(root) {
                grown = true;
                let blocks = get_blocks_for_structure_at_point(tree, root);
                assert(blocks@ =~= blocks_here);
                sort_tree_blocks(position, &blocks, &mut own, extra_blocks);
            }
        }
        proof {
            if !grown {
                assert(blocks_here =~= Seq::<Block>::empty());
            }
        }
        n = n + 1;
    }
    own
}

/// Sorts freshly grown blocks into those of the chunk and those that wait.
fn sort_tree_blocks(
    position: Vector2,
    blocks: &Vec<Block>,
    own: &mut Vec<Block>,
    extra_blocks: &mut HashMap<u32, Vec<Block>>,
)
    ensures
        (Sorted { own: final(own)@, extra: pending_views(final(extra_blocks)@) }) == sort_blocks(
            Sorted { own: old(own)@, extra: pending_views(old(extra_blocks)@) },
            position,
            blocks@,
        ),
{
    let ghost goal = sort_blocks(
        Sorted { own: own@, extra: pending_views(extra_blocks@) },
        position,
        blocks@,
    );
    let mut k: usize = 0;
    assert(blocks@.skip(0) =~= blocks@);
    while k < blocks.len()
        invariant
            k <= blocks@.len(),
            sort_blocks(
                Sorted { own: own@, extra: pending_views(extra_blocks@) },
                position,
                blocks@.skip(k as int),
            ) == goal,
        decreases blocks@.len() - k,
    {
        let block = blocks[k];
        let ghost left = blocks@.skip(k as int);
        assert(left[0] == block);
        assert(left.skip(1) =~= blocks@.skip(k as int + 1));
        let p = block.absolute_position;
        if crate::vector::div16(p.x) == position.x && crate::vector::div16(p.z) == position.y {
            own.push(block);
        } else {
            stash_block(extra_blocks, block);
        }
        k = k + 1;
    }
}

/// Takes the blocks that wait for the chunk under `key` out of the map.
fn take_waiting(extra_blocks: &mut HashMap<u32, Vec<Block>>, key: u32) -> (pending: Vec<Block>)
    ensures
        pending@ == waiting(pending_views(old(extra_blocks)@), key),
        pending_views(final(extra_blocks)@) == pending_views(old(extra_blocks)@).remove(key),
{
    broadcast use vstd::std_specs::hash::group_hash_axioms;

    let ghost before = pending_views(extra_blocks@);
    let pending = match extra_blocks.remove(&key) {
        Some(list) => list,
        None => Vec::new(),
    };
    proof {
        assert(pending@ =~= waiting(before, key));
        assert(pending_views(extra_blocks@) =~= before.remove(key));
    }
    pending
}

impl Chunk {
    /// The chunk of the bare terrain at `position`.
    fn from_terrain(position: Vector2, terrain: &TerrainSample) -> (chunk: Chunk)
        requires
            -CHUNK_COORD_LIMIT <= position.x < CHUNK_COORD_LIMIT,
            -CHUNK_COORD_LIMIT <= position.y < CHUNK_COORD_LIMIT,
            terrain.wf(),
        ensures
            chunk@ == terrain_chunk(position, terrain.heights@, terrain.caves@),
    {
        let grid = terrain_grid(position, terrain);
        let mut states: Vec<ChunkState> = Vec::with_capacity(SLICES);
        let mut transparent_quads: Vec<Vec<Quad>> = Vec::with_capacity(SLICES);
        let mut s: usize = 0;
        while s < SLICES
            invariant
                s <= SLICES,
                states@.len() == s,
                transparent_quads@.len() == s,
                forall|k: int| 0 <= k < s ==> #[trigger] states@[k] == ChunkState::RequiresLighting,
                forall|k: int| 0 <= k < s ==> (#[trigger] transparent_quads@[k])@.len() == 0,
            decreases SLICES - s,
        {
            states.push(ChunkState::RequiresLighting);
            transparent_quads.push(Vec::new());
            s = s + 1;
        }
        let ghost base = terrain_chunk(position, terrain.heights@, terrain.caves@);
        proof {
            lemma_terrain_chunk_wf(position, terrain.heights@, terrain.caves@);
            assert(states@ =~= base.states);
            assert(Seq::new(transparent_quads@.len(), |s: int| transparent_quads@[s]@)
                =~~= base.transparent_quads);
        }
        Chunk { position, grid, states, transparent_quads }
    }

    /// Generates the chunk at `position` from what the terrain generator
    /// says of it. Trees are built from `tree`; their blocks that fall
    /// outside the chunk are left in `extra_blocks` for the chunks they
    /// belong to, and the blocks that waited there for this chunk are
    /// taken out and placed.
    pub fn new(
        position: Vector2,
        terrain: &TerrainSample,
        tree: &StructureData,
        extra_blocks: &mut HashMap<u32, Vec<Block>>,
    ) -> (chunk: Chunk)
        requires
            -CHUNK_COORD_LIMIT <= position.x < CHUNK_COORD_LIMIT,
            -CHUNK_COORD_LIMIT <= position.y < CHUNK_COORD_LIMIT,
            terrain.wf(),
            tree@.wf(),
        ensures
            ({
                let grown = grow_trees(
                    Sorted { own: Seq::empty(), extra: pending_views(old(extra_blocks)@) },
                    position,
                    terrain.heights@,
                    terrain.trees@,
                    tree@,
                    0,
                );
                let key = chunk_key(position.x as int, position.y as int);
                &&& chunk@ == generated_chunk(
                    position,
                    terrain.heights@,
                    terrain.caves@,
                    waiting(grown.extra, key),
                    grown.own,
                )
                &&& pending_views(final(extra_blocks)@) == grown.extra.remove(key)
            }),
            chunk@.wf(),
    {
        let mut chunk = Chunk::from_terrain(position, terrain);
        let own = grow_chunk_trees(position, terrain, tree, extra_blocks);
        let pending = take_waiting(extra_blocks, xz_to_index(position.x, position.y));
        place_blocks(&mut chunk, &pending);
        place_blocks(&mut chunk, &own);
        chunk.well_formed();
        chunk
    }
}

/// The geometry of one slice for one pass, ready for upload: vertices,
/// indices and the number of indices.
pub struct SliceBuffers {
    pub vertices: Vec<SurfaceVertex>,
    pub indices: Vec<u32>,
    pub index_count: u32,
}

/// The same as plain data.
pub struct SliceBuffersView {
    pub vertices: Seq<SurfaceVertex>,
    pub indices: Seq<u32>,
    pub index_count: u32,
}

impl View for SliceBuffers {
    type V = SliceBuffersView;

    open spec fn view(&self) -> SliceBuffersView {
        SliceBuffersView {
            vertices: self.vertices@,
            indices: self.indices@,
            index_count: self.index_count,
        }
    }
}

/// The record of what is to be drawn of one chunk: for each slice the
/// solid and the transparent geometry, where it has been meshed, and the
/// per-slice payload that places the slice.
pub struct ChunkBuffers {
    pub position: Vector2,
    pub solid_buffers: Vec<Option<SliceBuffers>>,
    pub transparent_buffers: Vec<Option<SliceBuffers>>,
    pub slice_vertex_buffers: Vec<ChunkDataVertex>,
}

impl ChunkBuffers {
    /// The record of a chunk of which nothing has been meshed yet.
    pub fn new(x: i32, z: i32) -> (r: Self)
        ensures
            r.position == (Vector2 { x, y: z }),
            r.solid_buffers@.len() == 16,
            r.transparent_buffers@.len() == 16,
            forall|i: int| 0 <= i < 16 ==> (#[trigger] r.solid_buffers@[i]).is_none(),
            forall|i: int| 0 <= i < 16 ==> (#[trigger] r.transparent_buffers@[i]).is_none(),
            r.slice_vertex_buffers@.len() == 0,
    {
        let mut solid_buffers: Vec<Option<SliceBuffers>> = Vec::with_capacity(16);
        let mut transparent_buffers: Vec<Option<SliceBuffers>> = Vec::with_capacity(16);
        let mut i: usize = 0;
        while i < 16
            invariant
                i <= 16,
                solid_buffers@.len() == i,
                transparent_buffers@.len() == i,
                forall|j: int| 0 <= j < i ==> (#[trigger] solid_buffers@[j]).is_none(),
                forall|j: int| 0 <= j < i ==> (#[trigger] transparent_buffers@[j]).is_none(),
            decreases 16 - i,
        {
            solid_buffers.push(None);
            transparent_buffers.push(None);
            i = i + 1;
        }
        ChunkBuffers {
            position: Vector2::new(x, z),
            solid_buffers,
            transparent_buffers,
            slice_vertex_buffers: Vec::new(),
        }
    }

    /// Fills in the payloads that place the sixteen slices: chunk x,
    /// slice, chunk z.
    pub fn set_slice_vertex_buffers(&mut self)
        ensures
            final(self).position == old(self).position,
            final(self).solid_buffers == old(self).solid_buffers,
            final(self).transparent_buffers == old(self).transparent_buffers,
            final(self).slice_vertex_buffers@.len() == 16,
            forall|y: int|
                0 <= y < 16 ==> (#[trigger] final(self).slice_vertex_buffers@[y]).position_sliced@
                    == seq![old(self).position.x, y as i32, old(self).position.y],
    {
        let mut payloads: Vec<ChunkDataVertex> = Vec::with_capacity(16);
        let mut y: i32 = 0;
        while y < 16
            invariant
                0 <= y <= 16,
                payloads@.len() == y,
                forall|k: int|
                    0 <= k < y ==> (#[trigger] payloads@[k]).position_sliced@ == seq![
                        self.position.x,
                        k as i32,
                        self.position.y,
                    ],
            decreases 16 - y,
        {
            let payload = ChunkDataVertex { position_sliced: [self.position.x, y, self.position.y] };
            assert(payload.position_sliced@ =~= seq![self.position.x, y, self.position.y]);
            payloads.push(payload);
            y = y + 1;
        }
        self.slice_vertex_buffers = payloads;
    }

    /// Stores the solid geometry of a slice.
    pub fn set_solid_buffer(&mut self, slice: u32, buffers: SliceBuffers)
        requires
            slice < old(self).solid_buffers@.len(),
        ensures
            final(self).solid_buffers@ == old(self).solid_buffers@.update(slice as int, Some(buffers)),
            final(self).position == old(self).position,
            final(self).transparent_buffers == old(self).transparent_buffers,
            final(self).slice_vertex_buffers == old(self).slice_vertex_buffers,
    {
        self.solid_buffers[slice as usize] = Some(buffers);
    }

    /// Replaces the solid geometry of all slices.
    pub fn set_solid_buffers(&mut self, buffers: Vec<Option<SliceBuffers>>)
        ensures
            final(self).solid_buffers == buffers,
            final(self).position == old(self).position,
            final(self).transparent_buffers == old(self).transparent_buffers,
            final(self).slice_vertex_buffers == old(self).slice_vertex_buffers,
    {
        self.solid_buffers = buffers;
    }

    /// The solid geometry of a slice, where it has been meshed.
    pub fn get_solid_buffer(&self, slice: u32) -> (r: Option<&SliceBuffers>)
        requires
            slice < self.solid_buffers@.len(),
        ensures
            match r {
                Some(b) => self.solid_buffers@[slice as int] == Some(*b),
                None => self.solid_buffers@[slice as int].is_none(),
            },
    {
        self.solid_buffers[slice as usize].as_ref()
    }

    /// The solid geometry of all slices.
    pub fn get_solid_buffers(&self) -> (r: &Vec<Option<SliceBuffers>>)
        ensures
            *r == self.solid_buffers,
    {
        &self.solid_buffers
    }

    /// Stores the transparent geometry of a slice.
    pub fn set_transparent_buffer(&mut self, slice: u32, buffers: SliceBuffers)
        requires
            slice < old(self).transparent_buffers@.len(),
        ensures
            final(self).transparent_buffers@ == old(self).transparent_buffers@.update(
                slice as int,
                Some(buffers),
            ),
            final(self).position == old(self).position,
            final(self).solid_buffers == old(self).solid_buffers,
            final(self).slice_vertex_buffers == old(self).slice_vertex_buffers,
    {
        self.transparent_buffers[slice as usize] = Some(buffers);
    }

    /// Replaces the transparent geometry of all slices.
    pub fn set_transparent_buffers(&mut self, buffers: Vec<Option<SliceBuffers>>)
        ensures
            final(self).transparent_buffers == buffers,
            final(self).position == old(self).position,
            final(self).solid_buffers == old(self).solid_buffers,
            final(self).slice_vertex_buffers == old(self).slice_vertex_buffers,
    {
        self.transparent_buffers = buffers;
    }

    /// The transparent geometry of a slice, where it has been meshed.
    pub fn get_transparent_buffer(&self, slice: u32) -> (r: Option<&SliceBuffers>)
        requires
            slice < self.transparent_buffers@.len(),
        ensures
            match r {
                Some(b) => self.transparent_buffers@[slice as int] == Some(*b),
                None => self.transparent_buffers@[slice as int].is_none(),
            },
    {
        self.transparent_buffers[slice as usize].as_ref()
    }

    /// The transparent geometry of all slices.
    pub fn get_transparent_buffers(&self) -> (r: &Vec<Option<SliceBuffers>>)
        ensures
            *r == self.transparent_buffers,
    {
        &self.transparent_buffers
    }
}

impl Chunk {
    /// The transparent quads that were kept of a slice.
    pub fn transparent_quads(&self, slice: usize) -> (r: &Vec<Quad>)
        requires
            slice < 16,
        ensures
            r@ == self@.transparent_quads[slice as int],
    {
        proof {
            use_type_invariant(self);
        }
        &self.transparent_quads[slice]
    }

    /// Keeps the transparent quads of a slice for depth sorting.
    pub fn set_transparent_quads(&mut self, slice: usize, quads: Vec<Quad>)
        requires
            slice < 16,
        ensures
            final(self)@ == (ChunkView {
                transparent_quads: old(self)@.transparent_quads.update(slice as int, quads@),
                ..old(self)@
            }),
            final(self)@.wf(),
    {
        proof {
            use_type_invariant(&*self);
        }
        let ghost before = self@;
        quads_set(&mut self.transparent_quads, slice, quads);
        assert(self@.transparent_quads =~= before.transparent_quads.update(slice as int, quads@));
    }
}

fn quads_set(all: &mut Vec<Vec<Quad>>, slice: usize, quads: Vec<Quad>)
    requires
        slice < old(all)@.len(),
    ensures
        final(all)@ == old(all)@.update(slice as int, quads),
    no_unwind
{
    all[slice] = quads;
}

} // verus!
