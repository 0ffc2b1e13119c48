use vstd::prelude::*;

verus! {

/// A point or offset on the integer block lattice.
#[derive(Clone, Copy, Debug, PartialEq, Eq, Structural, Hash)]
pub struct Vector3 {
    pub x: i32,
    pub y: i32,
    pub z: i32,
}

/// A chunk coordinate: `x` is the chunk's x, `y` is the chunk's z.
#[derive(Clone, Copy, Debug, PartialEq, Eq, Structural, Hash)]
pub struct Vector2 {
    pub x: i32,
    pub y: i32,
}

/// A position inside a chunk slice, each component in `0..16` for a valid block.
#[derive(Clone, Copy, Debug, PartialEq, Eq, Structural, Hash)]
pub struct UVector3 {
    pub x: u32,
    pub y: u32,
    pub z: u32,
}

impl Vector3 {
    pub fn new(x: i32, y: i32, z: i32) -> (v: Vector3)
        ensures
            v == (Vector3 { x, y, z }),
    {
        Vector3 { x, y, z }
    }
}

impl Vector2 {
    pub fn new(x: i32, y: i32) -> (v: Vector2)
        ensures
            v == (Vector2 { x, y }),
    {
        Vector2 { x, y }
    }
}

impl UVector3 {
    pub fn new(x: u32, y: u32, z: u32) -> (v: UVector3)
        ensures
            v == (UVector3 { x, y, z }),
    {
        UVector3 { x, y, z }
    }
}

/// Floor division by the chunk edge: the chunk (or slice) that holds coordinate `a`.
pub open spec fn chunk_of(a: int) -> int {
    a / 16
}

/// The coordinate inside its chunk, always in `0..16`.
pub open spec fn local_of(a: int) -> int {
    a % 16
}

/// The chunk-space coordinate of a world coordinate (Euclidean division by 16).
pub fn div16(a: i32) -> (r: i32)
    ensures
        r == chunk_of(a as int),
        -134217728 <= r < 134217728,
{
    match a.checked_div_euclid(16) {
        Some(q) => q,
        None => 0,
    }
}

/// The chunk-local coordinate of a world coordinate (Euclidean remainder by 16).
pub fn rem16(a: i32) -> (r: u32)
    ensures
        r == local_of(a as int),
        r < 16,
{
    match a.checked_rem_euclid(16) {
        Some(m) => m as u32,
        None => 0,
    }
}

/// The lattice point one step from `p` along `d`, where every component stays
/// inside `i32`; `None` at the edge of the representable world.
pub open spec fn offset_spec(p: Vector3, d: Vector3) -> Option<Vector3> {
    if i32::MIN <= p.x + d.x <= i32::MAX && i32::MIN <= p.y + d.y <= i32::MAX && i32::MIN <= p.z
        + d.z <= i32::MAX {
        Some(Vector3 { x: (p.x + d.x) as i32, y: (p.y + d.y) as i32, z: (p.z + d.z) as i32 })
    } else {
        None
    }
}

/// Component-wise sum of two lattice vectors, `None` on overflow.
pub fn offset(p: Vector3, d: Vector3) -> (r: Option<Vector3>)
    ensures
        r == offset_spec(p, d),
{
    let x = p.x.checked_add(d.x);
    let y = p.y.checked_add(d.y);
    let z = p.z.checked_add(d.z);
    match (x, y, z) {
        (Some(x), Some(y), Some(z)) => Some(Vector3 { x, y, z }),
        _ => None,
    }
}

} // verus!
