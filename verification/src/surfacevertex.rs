use vstd::prelude::*;
use crate::blocks::BlockFace;

verus! {

/// One corner of a quad as the shader reads it: a packed word and the
/// illumination word of the block beyond the face.
#[derive(Clone, Copy, Debug, PartialEq, Eq, Structural)]
pub struct SurfaceVertex {
    pub d0: u32,
    pub illumination: u32,
}

/// The packed word of a vertex: position in bits 0-14 (five bits a
/// component), face in 15-17, corner in 18-19, diffuse texture from bit 20.
pub open spec fn pack_vertex(x: u32, y: u32, z: u32, face: u32, nth: u32, texture: u32) -> u32 {
    x | (y << 5) | (z << 10) | (face << 15) | (nth << 18) | (texture << 20)
}

impl SurfaceVertex {
    /// The vertex of corner `nth` of a face at `pos`, with the diffuse texture of
    /// `texture_indices` and the given light.
    pub fn from_position(
        pos: [u32; 3],
        face: BlockFace,
        nth: u32,
        texture_indices: (usize, usize, usize),
        illumination: u32,
    ) -> (v: SurfaceVertex)
        ensures
            v.illumination == illumination,
            v.d0 == pack_vertex(
                pos[0],
                pos[1],
                pos[2],
                face.index_spec(),
                nth,
                texture_indices.0 as u32,
            ),
    {
        let face_dir: u32 = face.index();
        let texture: u32 = texture_indices.0 as u32;
        let d0: u32 = pos[0] | (pos[1] << 5) | (pos[2] << 10) | (face_dir << 15) | (nth << 18) | (
        texture << 20);
        SurfaceVertex { d0, illumination }
    }
}

/// The fields of a packed vertex can be read back: where every field fits
/// its bits, masking and shifting the word returns each of them.
pub proof fn lemma_pack_vertex_fields(x: u32, y: u32, z: u32, face: u32, nth: u32, texture: u32)
    requires
        x < 32,
        y < 32,
        z < 32,
        face < 8,
        nth < 4,
        texture < 4096,
    ensures
        pack_vertex(x, y, z, face, nth, texture) & 31 == x,
        (pack_vertex(x, y, z, face, nth, texture) >> 5) & 31 == y,
        (pack_vertex(x, y, z, face, nth, texture) >> 10) & 31 == z,
        (pack_vertex(x, y, z, face, nth, texture) >> 15) & 7 == face,
        (pack_vertex(x, y, z, face, nth, texture) >> 18) & 3 == nth,
        pack_vertex(x, y, z, face, nth, texture) >> 20 == texture,
{
    let w = x | (y << 5) | (z << 10) | (face << 15) | (nth << 18) | (texture << 20);
    assert(w & 31 == x && (w >> 5) & 31 == y && (w >> 10) & 31 == z && (w >> 15) & 7 == face && (w
        >> 18) & 3 == nth && w >> 20 == texture) by (bit_vector)
        requires
            w == x | (y << 5) | (z << 10) | (face << 15) | (nth << 18) | (texture << 20),
            x < 32,
            y < 32,
            z < 32,
            face < 8,
            nth < 4,
            texture < 4096,
    ;
}

} // verus!
