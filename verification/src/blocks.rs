use vstd::prelude::*;
use crate::vector::{Vector3, UVector3, rem16, local_of};

verus! {

/// The closed set of block kinds.
#[derive(Clone, Copy, Debug, PartialEq, Eq, Structural, Hash)]
pub enum Blocks {
    AIR,
    DIRT,
    GRASS,
    STONE,
    LOG,
    LEAF,
}

/// The six faces of a block.
#[derive(Clone, Copy, Debug, PartialEq, Eq, Structural, Hash)]
pub enum BlockFace {
    Top,
    Bottom,
    Right,
    Left,
    Front,
    Back,
}

impl Blocks {
    /// The kind's number: AIR 0, DIRT 1, GRASS 2, STONE 3, LOG 4, LEAF 5.
    pub open spec fn index_spec(self) -> u32 {
        match self {
            Blocks::AIR => 0,
            Blocks::DIRT => 1,
            Blocks::GRASS => 2,
            Blocks::STONE => 3,
            Blocks::LOG => 4,
            Blocks::LEAF => 5,
        }
    }

    /// The kind's number.
    #[verifier::when_used_as_spec(index_spec)]
    pub fn index(self) -> (r: u32)
        ensures
            r == self.index_spec(),
    {
        match self {
            Blocks::AIR => 0,
            Blocks::DIRT => 1,
            Blocks::GRASS => 2,
            Blocks::STONE => 3,
            Blocks::LOG => 4,
            Blocks::LEAF => 5,
        }
    }

    /// Light passes through air and leaves.
    pub open spec fn transparent_spec(self) -> bool {
        self == Blocks::AIR || self == Blocks::LEAF
    }

    /// Whether light passes through blocks of this kind.
    #[verifier::when_used_as_spec(transparent_spec)]
    pub fn has_partial_transparency(self) -> (r: bool)
        ensures
            r == self.transparent_spec(),
    {
        match self {
            Blocks::AIR => true,
            Blocks::LEAF => true,
            _ => false,
        }
    }

    /// Every kind but air contributes geometry.
    pub open spec fn meshes_spec(self) -> bool {
        self != Blocks::AIR
    }

    /// Whether blocks of this kind contribute geometry.
    #[verifier::when_used_as_spec(meshes_spec)]
    pub fn does_mesh(self) -> (r: bool)
        ensures
            r == self.meshes_spec(),
    {
        match self {
            Blocks::AIR => false,
            _ => true,
        }
    }

    /// No kind of this set is a fluid.
    pub fn is_fluid(self) -> (r: bool)
        ensures
            !r,
    {
        false
    }
}

/// The atlas indices of the textures that blocks wear, resolved once by the
/// texture system and handed to the blocks by reference.
#[derive(Clone, Copy, Debug)]
pub struct BlockTextures {
    pub dirt: usize,
    pub grass_top: usize,
    pub grass_side: usize,
    pub stone: usize,
    pub log_top: usize,
    pub log: usize,
    pub leaf: usize,
}

/// The diffuse texture of a face of a kind, out of the resolved indices.
pub open spec fn surface_texture(kind: Blocks, face: BlockFace, t: BlockTextures) -> usize {
    match kind {
        Blocks::AIR => 0,
        Blocks::DIRT => t.dirt,
        Blocks::GRASS => match face {
            BlockFace::Top => t.grass_top,
            BlockFace::Bottom => t.dirt,
            _ => t.grass_side,
        },
        Blocks::STONE => t.stone,
        Blocks::LOG => match face {
            BlockFace::Top => t.log_top,
            BlockFace::Bottom => t.log_top,
            _ => t.log,
        },
        Blocks::LEAF => t.leaf,
    }
}

impl BlockFace {
    /// The face's slot in the shader's table of normals: Left 0, Right 1,
    /// Bottom 2, Top 3, Front 4, Back 5.
    pub open spec fn normal_index_spec(&self) -> u32 {
        match self {
            BlockFace::Left => 0,
            BlockFace::Right => 1,
            BlockFace::Bottom => 2,
            BlockFace::Top => 3,
            BlockFace::Front => 4,
            BlockFace::Back => 5,
        }
    }

    /// The face's slot in the shader's table of normals.
    #[verifier::when_used_as_spec(normal_index_spec)]
    pub fn normal_index(&self) -> (r: u32)
        ensures
            r == self.normal_index_spec(),
    {
        match self {
            BlockFace::Left => 0u32,
            BlockFace::Right => 1u32,
            BlockFace::Bottom => 2u32,
            BlockFace::Top => 3u32,
            BlockFace::Front => 4u32,
            BlockFace::Back => 5u32,
        }
    }

    /// The unit vector that points out of the face.
    pub open spec fn normal_spec(&self) -> Vector3 {
        match self {
            BlockFace::Left => Vector3 { x: -1i32, y: 0, z: 0 },
            BlockFace::Right => Vector3 { x: 1, y: 0, z: 0 },
            BlockFace::Bottom => Vector3 { x: 0, y: -1i32, z: 0 },
            BlockFace::Top => Vector3 { x: 0, y: 1, z: 0 },
            BlockFace::Front => Vector3 { x: 0, y: 0, z: -1i32 },
            BlockFace::Back => Vector3 { x: 0, y: 0, z: 1 },
        }
    }

    /// The unit vector that points out of the face.
    #[verifier::when_used_as_spec(normal_spec)]
    pub fn normal(&self) -> (r: Vector3)
        ensures
            r == self.normal_spec(),
    {
        match self {
            BlockFace::Left => Vector3::new(-1, 0, 0),
            BlockFace::Right => Vector3::new(1, 0, 0),
            BlockFace::Bottom => Vector3::new(0, -1, 0),
            BlockFace::Top => Vector3::new(0, 1, 0),
            BlockFace::Front => Vector3::new(0, 0, -1),
            BlockFace::Back => Vector3::new(0, 0, 1),
        }
    }

    /// Where a corner of a face lies in the slice: `axis` is the layer along
    /// the face's normal, `x` and `y` the corner in the face's plane. Faces
    /// that look along the positive axis sit one layer further. Negative
    /// coordinates wrap around as unsigned words do.
    pub open spec fn world_to_sample_spec(self, axis: i32, x: i32, y: i32) -> Seq<u32> {
        match self {
            BlockFace::Top => seq![x as u32, (axis as u32 + 1) as u32, y as u32],
            BlockFace::Bottom => seq![x as u32, axis as u32, y as u32],
            BlockFace::Left => seq![axis as u32, y as u32, x as u32],
            BlockFace::Right => seq![(axis as u32 + 1) as u32, y as u32, x as u32],
            BlockFace::Front => seq![x as u32, y as u32, axis as u32],
            BlockFace::Back => seq![x as u32, y as u32, (axis as u32 + 1) as u32],
        }
    }

    /// Whether the face looks along the positive direction of its axis.
    pub open spec fn looks_up(self) -> bool {
        self == BlockFace::Top || self == BlockFace::Right || self == BlockFace::Back
    }

    /// Where a corner of a face lies in the slice.
    pub fn world_to_sample(&self, axis: i32, x: i32, y: i32) -> (r: [u32; 3])
        requires
            self.looks_up() ==> axis != -1,
        ensures
            r@ == self.world_to_sample_spec(axis, x, y),
    {
        let a = #[verifier::truncate]
        (axis as u32);
        let u = #[verifier::truncate]
        (x as u32);
        let v = #[verifier::truncate]
        (y as u32);
        assert(axis != -1 ==> a != u32::MAX) by (bit_vector)
            requires
                a == axis as u32,
        ;
        let r = match self {
            BlockFace::Top => [u, a + 1, v],
            BlockFace::Bottom => [u, a, v],
            BlockFace::Left => [a, v, u],
            BlockFace::Right => [a + 1, v, u],
            BlockFace::Front => [u, v, a],
            BlockFace::Back => [u, v, a + 1],
        };
        assert(r@ =~= self.world_to_sample_spec(axis, x, y));
        r
    }

    /// Whether the face's quads are wound backwards: Top, Right and Front are.
    pub open spec fn reverse_order_spec(&self) -> bool {
        match self {
            BlockFace::Top => true,
            BlockFace::Bottom => false,
            BlockFace::Left => false,
            BlockFace::Right => true,
            BlockFace::Front => true,
            BlockFace::Back => false,
        }
    }

    /// Whether the face's quads are wound backwards to stay front-facing.
    #[verifier::when_used_as_spec(reverse_order_spec)]
    pub fn reverse_order(&self) -> (r: bool)
        ensures
            r == self.reverse_order_spec(),
    {
        match self {
            BlockFace::Top => true,
            BlockFace::Bottom => false,
            BlockFace::Left => false,
            BlockFace::Right => true,
            BlockFace::Front => true,
            BlockFace::Back => false,
        }
    }

    /// The face's number in vertex data: Top 0, Bottom 1, Right 2, Left 3, Front 4, Back 5.
    pub open spec fn index_spec(&self) -> u32 {
        match self {
            BlockFace::Top => 0,
            BlockFace::Bottom => 1,
            BlockFace::Right => 2,
            BlockFace::Left => 3,
            BlockFace::Front => 4,
            BlockFace::Back => 5,
        }
    }

    /// The face's number in vertex data.
    #[verifier::when_used_as_spec(index_spec)]
    pub fn index(&self) -> (r: u32)
        ensures
            r == self.index_spec(),
    {
        match self {
            BlockFace::Top => 0,
            BlockFace::Bottom => 1,
            BlockFace::Right => 2,
            BlockFace::Left => 3,
            BlockFace::Front => 4,
            BlockFace::Back => 5,
        }
    }

    /// The face with the given number, for the numbers `0..6`.
    pub fn from_index(value: usize) -> (r: Option<BlockFace>)
        ensures
            value < 6 <==> r.is_some(),
            r matches Some(f) ==> f.index_spec() == value,
    {
        match value {
            0 => Some(BlockFace::Top),
            1 => Some(BlockFace::Bottom),
            2 => Some(BlockFace::Right),
            3 => Some(BlockFace::Left),
            4 => Some(BlockFace::Front),
            5 => Some(BlockFace::Back),
            _ => None,
        }
    }
}

/// One block of the world: its kind, where it is, and the light that falls on it.
#[derive(Clone, Copy, Debug)]
pub struct Block {
    pub kind: Blocks,
    pub relative_position: UVector3,
    pub absolute_position: Vector3,
    pub sunlight_intensity: u8,
    pub lights: [u8; 3],
}

/// The position in its chunk slice of a block at world position `p`.
pub open spec fn relative_of(p: Vector3) -> UVector3 {
    UVector3 {
        x: local_of(p.x as int) as u32,
        y: local_of(p.y as int) as u32,
        z: local_of(p.z as int) as u32,
    }
}

/// The packed light of a block: red in bits 0-7, green in 8-15, blue in 16-23,
/// sunlight in 24-31.
pub open spec fn illumination_word(lights: [u8; 3], sunlight: u8) -> u32 {
    (lights[0] as int + lights[1] as int * 0x100 + lights[2] as int * 0x1_0000 + sunlight as int
        * 0x100_0000) as u32
}

impl Block {
    /// A block is well formed when its position in the slice is its world
    /// position modulo 16 and its sunlight lies in `0..=15`.
    pub open spec fn wf(self) -> bool {
        &&& self.relative_position == relative_of(self.absolute_position)
        &&& self.sunlight_intensity <= 15
    }

    /// Checks that the block is well formed.
    pub fn is_wf(&self) -> (r: bool)
        ensures
            r == self.wf(),
    {
        let p = self.absolute_position;
        self.relative_position.x == rem16(p.x) && self.relative_position.y == rem16(p.y)
            && self.relative_position.z == rem16(p.z) && self.sunlight_intensity <= 15
    }

    /// The block's position in the world.
    pub fn get_absolute_position(&self) -> (r: Vector3)
        ensures
            r == self.absolute_position,
    {
        self.absolute_position
    }

    /// The block's position in its chunk slice.
    pub fn get_relative_position(&self) -> (r: UVector3)
        ensures
            r == self.relative_position,
    {
        self.relative_position
    }

    /// Whether light passes through the block.
    pub fn has_partial_transparency(&self) -> (r: bool)
        ensures
            r == self.kind.transparent_spec(),
    {
        self.kind.has_partial_transparency()
    }

    /// Whether the block contributes geometry.
    pub fn does_mesh(&self) -> (r: bool)
        ensures
            r == self.kind.meshes_spec(),
    {
        self.kind.does_mesh()
    }

    /// Whether the block is a fluid.
    pub fn is_fluid(&self) -> (r: bool)
        ensures
            !r,
    {
        self.kind.is_fluid()
    }

    /// The block's kind.
    pub fn get_block(&self) -> (r: Blocks)
        ensures
            r == self.kind,
    {
        self.kind
    }

    /// The display name of the block's kind.
    pub fn get_name(&self) -> (r: String)
        ensures
            r@ == match self.kind {
                Blocks::AIR => "dirt block"@,
                Blocks::DIRT => "dirt block"@,
                Blocks::GRASS => "grass block"@,
                Blocks::STONE => "stone block"@,
                Blocks::LOG => "log block"@,
                Blocks::LEAF => "leaf block"@,
            },
    {
        match self.kind {
            Blocks::AIR => "dirt block".to_owned(),
            Blocks::DIRT => "dirt block".to_owned(),
            Blocks::GRASS => "grass block".to_owned(),
            Blocks::STONE => "stone block".to_owned(),
            Blocks::LOG => "log block".to_owned(),
            Blocks::LEAF => "leaf block".to_owned(),
        }
    }

    /// The diffuse, normal and emissive texture indices of a face.
    pub fn get_surface_textures(&self, face: BlockFace, textures: &BlockTextures) -> (r: (
        usize,
        usize,
        usize,
    ))
        ensures
            r == (surface_texture(self.kind, face, *textures), 0usize, 0usize),
    {
        let diffuse = match self.kind {
            Blocks::AIR => 0,
            Blocks::DIRT => textures.dirt,
            Blocks::GRASS => match face {
                BlockFace::Top => textures.grass_top,
                BlockFace::Bottom => textures.dirt,
                _ => textures.grass_side,
            },
            Blocks::STONE => textures.stone,
            Blocks::LOG => match face {
                BlockFace::Top => textures.log_top,
                BlockFace::Bottom => textures.log_top,
                _ => textures.log,
            },
            Blocks::LEAF => textures.leaf,
        };
        (diffuse, 0, 0)
    }

    /// Takes all light from the block.
    pub fn reset_light(&mut self)
        ensures
            *final(self) == (Block {
                lights: fresh_block(old(self).kind, old(self).absolute_position).lights,
                sunlight_intensity: 0,
                ..*old(self)
            }),
            final(self).lights@ == seq![0u8, 0u8, 0u8],
    {
        self.lights = [0u8;3];
        self.sunlight_intensity = 0;
        assert(self.lights@ =~= seq![0u8, 0u8, 0u8]);
    }

    /// Sets the block's sunlight, from 0 to 15.
    pub fn set_sunlight_intensity(&mut self, intensity: u8)
        requires
            intensity <= 15,
        ensures
            *final(self) == (Block { sunlight_intensity: intensity, ..*old(self) }),
    {
        self.sunlight_intensity = intensity;
    }

    /// Sets the block's coloured light: red, green, blue.
    pub fn set_light(&mut self, with_color: [u8; 3])
        ensures
            *final(self) == (Block { lights: with_color, ..*old(self) }),
    {
        self.lights = with_color;
    }

    /// The block's coloured light: red, green, blue.
    pub fn get_light(&self) -> (r: &[u8; 3])
        ensures
            *r == self.lights,
    {
        &self.lights
    }

    /// The block's sunlight, from 0 to 15.
    pub fn get_sunlight_intensity(&self) -> (r: u8)
        ensures
            r == self.sunlight_intensity,
    {
        self.sunlight_intensity
    }

    /// No kind of this set gives off light of its own.
    pub fn emissive_color(&self) -> (r: Option<[u8; 3]>)
        ensures
            r.is_none(),
    {
        None
    }

    /// Takes over the light state of `other`, keeping kind and position.
    pub fn copy_into_self(&mut self, other: &Block)
        ensures
            *final(self) == (Block {
                lights: other.lights,
                sunlight_intensity: other.sunlight_intensity,
                ..*old(self)
            }),
    {
        self.lights = other.lights;
        self.sunlight_intensity = other.sunlight_intensity;
    }
}

/// The fresh, unlit block of the given kind at a world position.
pub open spec fn fresh_block(kind: Blocks, absolute_position: Vector3) -> Block {
    Block {
        kind,
        relative_position: relative_of(absolute_position),
        absolute_position,
        sunlight_intensity: 0,
        lights: vstd::array::spec_array_fill_for_copy_type::<u8, 3>(0u8),
    }
}

/// A fresh, unlit block of the given kind at a world position.
pub fn create_block_default(block: Blocks, absolute_position: Vector3) -> (r: Block)
    ensures
        r == fresh_block(block, absolute_position),
        r.wf(),
        r.lights@ == seq![0u8, 0u8, 0u8],
{
    let relative_position = UVector3::new(
        rem16(absolute_position.x),
        rem16(absolute_position.y),
        rem16(absolute_position.z),
    );
    let r = Block {
        kind: block,
        relative_position,
        absolute_position,
        sunlight_intensity: 0,
        lights: [0u8;3],
    };
    assert(r.lights@ =~= seq![0u8, 0u8, 0u8]);
    r
}

/// Packs a block's light into the word that a vertex carries.
pub fn calculate_illumination_bytes(block: &Block) -> (val: u32)
    ensures
        val == illumination_word(block.lights, block.sunlight_intensity),
{
    let r: u32 = block.lights[0] as u32;
    let g: u32 = block.lights[1] as u32;
    let b: u32 = block.lights[2] as u32;
    let s: u32 = block.sunlight_intensity as u32;
    assert(r | (g << 8) | (b << 16) | (s << 24) == r + g * 0x100 + b * 0x1_0000 + s * 0x100_0000)
        by (bit_vector)
        requires
            r < 256,
            g < 256,
            b < 256,
            s < 256,
    ;
    r | (g << 8) | (b << 16) | (s << 24)
}

} // verus!
