use vstd::prelude::*;
use crate::blocks::Block;
use crate::chunk::ChunkView;

verus! {

/// What one block adds to a measure of the world's light: its sunlight, or,
/// for the dark measure, how far its sunlight is from the largest byte.
pub open spec fn block_measure(b: Block, dark: bool) -> int {
    if dark {
        255 - b.sunlight_intensity
    } else {
        b.sunlight_intensity as int
    }
}

/// The measure of the first `n` cells.
pub open spec fn cells_measure(cells: Seq<Block>, n: int, dark: bool) -> int
    decreases n,
{
    if n <= 0 {
        0
    } else {
        cells_measure(cells, n - 1, dark) + block_measure(cells[n - 1], dark)
    }
}

/// The measure of a chunk: that of all its cells.
pub open spec fn chunk_measure(c: ChunkView, dark: bool) -> int {
    cells_measure(c.cells, c.cells.len() as int, dark)
}

/// The measure of the chunks stored under keys below `k`.
pub open spec fn world_measure_below(w: Map<u32, ChunkView>, k: int, dark: bool) -> int
    decreases k,
{
    if k <= 0 {
        0
    } else {
        world_measure_below(w, k - 1, dark) + if w.contains_key((k - 1) as u32) {
            chunk_measure(w[(k - 1) as u32], dark)
        } else {
            0
        }
    }
}

/// The measure of a world. With `dark` it is the sum over all blocks of what
/// their sunlight lacks to 255: it falls whenever a block is lit up. Without
/// it is the sum of all sunlight: it falls whenever a block is dimmed.
pub open spec fn world_measure(w: Map<u32, ChunkView>, dark: bool) -> int {
    world_measure_below(w, 0x1_0000_0000, dark)
}

/// The measure of cells is not negative.
pub proof fn lemma_cells_measure_nonnegative(cells: Seq<Block>, n: int, dark: bool)
    ensures
        0 <= cells_measure(cells, n, dark),
    decreases n,
{
    if n > 0 {
        lemma_cells_measure_nonnegative(cells, n - 1, dark);
    }
}

/// The measure of a world is not negative.
pub proof fn lemma_world_measure_nonnegative(w: Map<u32, ChunkView>, k: int, dark: bool)
    ensures
        0 <= world_measure_below(w, k, dark),
    decreases k,
{
    if k > 0 {
        lemma_world_measure_nonnegative(w, k - 1, dark);
        if w.contains_key((k - 1) as u32) {
            let c = w[(k - 1) as u32];
            lemma_cells_measure_nonnegative(c.cells, c.cells.len() as int, dark);
        }
    }
}

/// Replacing one cell changes the measure by the difference of the two blocks.
pub proof fn lemma_cells_measure_update(cells: Seq<Block>, n: int, i: int, b: Block, dark: bool)
    requires
        0 <= i < cells.len(),
        0 <= n <= cells.len(),
    ensures
        cells_measure(cells.update(i, b), n, dark) == cells_measure(cells, n, dark) + if i < n {
            block_measure(b, dark) - block_measure(cells[i], dark)
        } else {
            0
        },
    decreases n,
{
    if n > 0 {
        lemma_cells_measure_update(cells, n - 1, i, b, dark);
    }
}

/// Replacing one chunk changes the measure by the difference of the two chunks.
pub proof fn lemma_world_measure_insert(
    w: Map<u32, ChunkView>,
    k: int,
    key: u32,
    c: ChunkView,
    dark: bool,
)
    requires
        w.contains_key(key),
        0 <= k <= 0x1_0000_0000,
    ensures
        world_measure_below(w.insert(key, c), k, dark) == world_measure_below(w, k, dark) + if key
            < k {
            chunk_measure(c, dark) - chunk_measure(w[key], dark)
        } else {
            0
        },
    decreases k,
{
    if k > 0 {
        lemma_world_measure_insert(w, k - 1, key, c, dark);
    }
}

} // verus!
