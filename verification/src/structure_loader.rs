use vstd::prelude::*;
use crate::blocks::{Block, Blocks, create_block_default, fresh_block};
use crate::vector::Vector3;

verus! {

/// The largest width and height of a structure: with it the place of
/// every cell of a layer can be counted in 32 bits.
pub const STRUCTURE_LIMIT: u32 = 32767;

/// A structure as its file describes it: the block kinds it is made
/// of, its extent, and for each layer, top layer first, the index of the
/// kind of each cell, row by row along z and in each row along x.
pub struct StructureData {
    pub blocks: Vec<Blocks>,
    pub widthx: u32,
    pub widthz: u32,
    pub height: u32,
    pub schematic: Vec<Vec<u32>>,
}

/// The same as plain data.
pub struct StructureView {
    pub blocks: Seq<Blocks>,
    pub widthx: int,
    pub widthz: int,
    pub height: int,
    pub schematic: Seq<Seq<u32>>,
}

impl View for StructureData {
    type V = StructureView;

    open spec fn view(&self) -> StructureView {
        StructureView {
            blocks: self.blocks@,
            widthx: self.widthx as int,
            widthz: self.widthz as int,
            height: self.height as int,
            schematic: Seq::new(self.schematic@.len(), |i: int| self.schematic@[i]@),
        }
    }
}

impl StructureView {
    /// A structure reaches `widthx / 2` cells to either side of its
    /// centre along x, so a layer has this many cells in a row.
    pub open spec fn span_x(self) -> int {
        2 * (self.widthx / 2) + 1
    }

    /// The number of rows of a layer.
    pub open spec fn span_z(self) -> int {
        2 * (self.widthz / 2) + 1
    }

    /// The place in its layer of the cell at `(rx, rz)`, counted from the
    /// layer's corner: rows are `widthx` apart.
    pub open spec fn cell(self, rx: int, rz: int) -> int {
        rz * self.widthx + rx
    }

    /// The number of entries of a layer that the structure reads: up to
    /// the last cell of the last row.
    pub open spec fn layer_cells(self) -> int {
        (self.span_z() - 1) * self.widthx + self.span_x()
    }

    /// A structure is well formed when its extent is within the limit,
    /// every layer is there and names a kind for every cell.
    pub open spec fn wf(self) -> bool {
        &&& 0 <= self.widthx <= STRUCTURE_LIMIT
        &&& 0 <= self.widthz <= STRUCTURE_LIMIT
        &&& 0 <= self.height <= STRUCTURE_LIMIT
        &&& self.schematic.len() == self.height
        &&& forall|y: int|
            0 <= y < self.height ==> (#[trigger] self.schematic[y]).len() >= self.layer_cells()
        &&& forall|y: int, i: int|
            0 <= y < self.height && 0 <= i < self.layer_cells() ==> (#[trigger] self.schematic[y][i])
                < self.blocks.len()
    }

    /// Whether the structure can stand at `position` with every block
    /// inside the coordinates.
    pub open spec fn fits_at(self, position: Vector3) -> bool {
        &&& i32::MIN <= position.x - self.widthx / 2
        &&& position.x + self.widthx / 2 <= i32::MAX
        &&& i32::MIN <= position.z - self.widthz / 2
        &&& position.z + self.widthz / 2 <= i32::MAX
        &&& position.y + self.height <= i32::MAX
    }

    /// The number of blocks of the structure.
    pub open spec fn volume(self) -> int {
        self.height * self.span_z() * self.span_x()
    }

    /// The kind of block `n` of the structure: the blocks come layer by
    /// layer from the top, in a layer along z, in a row along x.
    pub open spec fn block_kind(self, n: int) -> Blocks {
        let y = n / (self.span_z() * self.span_x());
        let rz = (n / self.span_x()) % self.span_z();
        let rx = n % self.span_x();
        self.blocks[self.schematic[y][self.cell(rx, rz)] as int]
    }

    /// The world position of block `n` of the structure standing at
    /// `position`: its centre column at `position`, its lowest layer at
    /// the height of `position`.
    pub open spec fn block_position(self, position: Vector3, n: int) -> Vector3 {
        let y = n / (self.span_z() * self.span_x());
        let rz = (n / self.span_x()) % self.span_z();
        let rx = n % self.span_x();
        Vector3 {
            x: (position.x + rx - self.widthx / 2) as i32,
            y: (position.y + self.height - 1 - y) as i32,
            z: (position.z + rz - self.widthz / 2) as i32,
        }
    }
}

impl StructureData {
    /// Checks a structure that was read from a file.
    pub fn is_well_formed(&self) -> (r: bool)
        ensures
            r == self@.wf(),
    {
        if self.widthx > STRUCTURE_LIMIT || self.widthz > STRUCTURE_LIMIT || self.height
            > STRUCTURE_LIMIT || self.schematic.len() != self.height as usize {
            return false;
        }
        let span_x: usize = 2 * (self.widthx as usize / 2) + 1;
        let span_z: usize = 2 * (self.widthz as usize / 2) + 1;
        assert((span_z - 1) * self.widthx <= 32767 * 32767) by (nonlinear_arith)
            requires
                0 <= span_z - 1 <= 32767,
                self.widthx <= 32767,
        ;
        let needed: usize = (span_z - 1) * (self.widthx as usize) + span_x;
        let mut y: usize = 0;
        while y < self.height as usize
            invariant
                y <= self.height,
                self.schematic@.len() == self.height,
                needed == self@.layer_cells(),
                forall|yy: int|
                    0 <= yy < y ==> (#[trigger] self@.schematic[yy]).len() >= self@.layer_cells(),
                forall|yy: int, i: int|
                    0 <= yy < y && 0 <= i < needed ==> (#[trigger] self@.schematic[yy][i])
                        < self.blocks@.len(),
            decreases self.height - y,
        {
            if self.schematic[y].len() < needed {
                assert(self@.schematic[y as int].len() < self@.layer_cells());
                return false;
            }
            let mut i: usize = 0;
            while i < needed
                invariant
                    i <= needed,
                    y < self.height,
                    needed == self@.layer_cells(),
                    self.schematic@.len() == self.height,
                    self.schematic@[y as int]@.len() >= needed,
                    forall|j: int|
                        0 <= j < i ==> (#[trigger] self@.schematic[y as int][j]) < self.blocks@.len(),
                decreases needed - i,
            {
                if self.schematic[y][i] as usize >= self.blocks.len() {
                    assert(self@.schematic[y as int][i as int] >= self.blocks@.len());
                    return false;
                }
                i = i + 1;
            }
            y = y + 1;
        }
        true
    }

    /// Whether the structure can stand at `position`.
    pub fn fits_at(&self, position: Vector3) -> (r: bool)
        requires
            self@.wf(),
        ensures
            r == self@.fits_at(position),
    {
        let half_x = (self.widthx / 2) as i64;
        let half_z = (self.widthz / 2) as i64;
        let x = position.x as i64;
        let y = position.y as i64;
        let z = position.z as i64;
        -2147483648 <= x - half_x && x + half_x <= 2147483647 && -2147483648 <= z - half_z && z
            + half_z <= 2147483647 && y + self.height as i64 <= 2147483647
    }
}

/// The blocks of a structure that stands at `position`, its lowest layer
/// at the height of `position`.
pub fn get_blocks_for_structure_at_point(structure: &StructureData, position: Vector3) -> (blocks:
    Vec<Block>)
    requires
        structure@.wf(),
        structure@.fits_at(position),
    ensures
        blocks@.len() == structure@.volume(),
        forall|n: int| 0 <= n < blocks@.len() ==> (#[trigger] blocks@[n]).wf(),
        forall|n: int|
            0 <= n < blocks@.len() ==> #[trigger] blocks@[n] == fresh_block(
                    structure@.block_kind(n),
                    structure@.block_position(position, n),
                ),
{
    let wx = structure.widthx as i32;
    let wz = structure.widthz as i32;
    let h = structure.height as i32;
    let span_x = 2 * (wx / 2) + 1;
    let span_z = 2 * (wz / 2) + 1;
    let mut blocks: Vec<Block> = Vec::new();
    let ghost s = structure@;
    let ghost layer = s.span_z() * s.span_x();
    let mut y: i32 = 0;
    proof {
        assert(0 * layer == 0) by (nonlinear_arith);
    }
    while y < h
        invariant
            0 <= y <= h,
            s == structure@,
            s.wf(),
            s.fits_at(position),
            wx == s.widthx,
            wz == s.widthz,
            h == s.height,
            span_x == s.span_x(),
            span_z == s.span_z(),
            layer == s.span_z() * s.span_x(),
            blocks@.len() == y * layer,
            forall|n: int| 0 <= n < blocks@.len() ==> (#[trigger] blocks@[n]).wf(),
            forall|n: int|
                0 <= n < blocks@.len() ==> #[trigger] blocks@[n] == fresh_block(
                    s.block_kind(n),
                    s.block_position(position, n),
                ),
        decreases h - y,
    {
        let mut rz: i32 = 0;
        proof {
            assert(0 * s.span_x() == 0) by (nonlinear_arith);
        }
        while rz < span_z
            invariant
                0 <= y < h,
                0 <= rz <= span_z,
                s == structure@,
                s.wf(),
                s.fits_at(position),
                wx == s.widthx,
                wz == s.widthz,
                h == s.height,
                span_x == s.span_x(),
                span_z == s.span_z(),
                layer == s.span_z() * s.span_x(),
                blocks@.len() == y * layer + rz * s.span_x(),
                forall|n: int| 0 <= n < blocks@.len() ==> (#[trigger] blocks@[n]).wf(),
                forall|n: int|
                    0 <= n < blocks@.len() ==> #[trigger] blocks@[n] == fresh_block(
                    s.block_kind(n),
                    s.block_position(position, n),
                ),
            decreases span_z - rz,
        {
            let mut rx: i32 = 0;
            while rx < span_x
                invariant
                    0 <= y < h,
                    0 <= rz < span_z,
                    0 <= rx <= span_x,
                    s == structure@,
                    s.wf(),
                    s.fits_at(position),
                    wx == s.widthx,
                    wz == s.widthz,
                    h == s.height,
                    span_x == s.span_x(),
                    span_z == s.span_z(),
                    layer == s.span_z() * s.span_x(),
                    blocks@.len() == y * layer + rz * s.span_x() + rx,
                    forall|n: int| 0 <= n < blocks@.len() ==> (#[trigger] blocks@[n]).wf(),
                    forall|n: int|
                        0 <= n < blocks@.len() ==> #[trigger] blocks@[n] == fresh_block(
                    s.block_kind(n),
                    s.block_position(position, n),
                ),
                decreases span_x - rx,
            {
                let ghost n = blocks@.len() as int;
                proof {
                    lemma_structure_index(s.span_x(), s.span_z(), y as int, rz as int, rx as int);
                    assert(0 <= rz * wx <= (s.span_z() - 1) * s.widthx <= 32767 * 32767)
                        by (nonlinear_arith)
                        requires
                            0 <= rz <= s.span_z() - 1 <= 32767,
                            0 <= wx <= 32767,
                            wx == s.widthx,
                    ;
                    assert(s.cell(rx as int, rz as int) < s.layer_cells());
                    assert(s.schematic[y as int].len() >= s.layer_cells());
                    assert(s.schematic[y as int][s.cell(rx as int, rz as int)] < s.blocks.len());
                }
                let abs = Vector3::new(
                    position.x + (rx - wx / 2),
                    position.y + (h - 1 - y),
                    position.z + (rz - wz / 2),
                );
                let index = structure.schematic[y as usize][(rz * wx + rx) as usize];
                let kind = structure.blocks[index as usize];
                let block = create_block_default(kind, abs);
                blocks.push(block);
                assert(block == fresh_block(s.block_kind(n), s.block_position(position, n)));
                rx = rx + 1;
            }
            proof {
                assert((rz + 1) * s.span_x() == rz * s.span_x() + s.span_x()) by (nonlinear_arith);
            }
            rz = rz + 1;
        }
        proof {
            assert((y + 1) * layer == y * layer + layer) by (nonlinear_arith);
        }
        y = y + 1;
    }
    proof {
        assert(s.volume() == h * layer) by (nonlinear_arith)
            requires
                s.volume() == s.height * s.span_z() * s.span_x(),
                layer == s.span_z() * s.span_x(),
                h == s.height,
        ;
    }
    blocks
}

proof fn lemma_structure_index(span_x: int, span_z: int, y: int, rz: int, rx: int)
    requires
        0 < span_x,
        0 < span_z,
        0 <= y,
        0 <= rz < span_z,
        0 <= rx < span_x,
    ensures
        ({
            let n = y * (span_z * span_x) + rz * span_x + rx;
            &&& n / (span_z * span_x) == y
            &&& (n / span_x) % span_z == rz
            &&& n % span_x == rx
        }),
{
    let n = y * (span_z * span_x) + rz * span_x + rx;
    assert(0 <= rz * span_x + rx < span_z * span_x) by (nonlinear_arith)
        requires
            0 <= rz < span_z,
            0 <= rx < span_x,
            0 < span_x,
    ;
    assert(0 < span_z * span_x) by (nonlinear_arith)
        requires
            0 < span_x,
            0 < span_z,
    ;
    vstd::arithmetic::div_mod::lemma_fundamental_div_mod_converse(
        n,
        span_z * span_x,
        y,
        rz * span_x + rx,
    );
    assert(n == (y * span_z + rz) * span_x + rx) by (nonlinear_arith)
        requires
            n == y * (span_z * span_x) + rz * span_x + rx,
    ;
    vstd::arithmetic::div_mod::lemma_fundamental_div_mod_converse(n, span_x, y * span_z + rz, rx);
    vstd::arithmetic::div_mod::lemma_fundamental_div_mod_converse(y * span_z + rz, span_z, y, rz);
}

} // verus!
