use vstd::prelude::*;
use vstd::arithmetic::div_mod::lemma_fundamental_div_mod_converse;

verus! {

/// An integer 3-vector, used both for chunk-grid coordinates and for
/// world-space block positions.
#[derive(Clone, Copy, PartialEq, Eq, Structural, Debug)]
pub struct IVec3 {
    pub x: i32,
    pub y: i32,
    pub z: i32,
}

impl IVec3 {
    pub fn new(x: i32, y: i32, z: i32) -> (r: IVec3)
        ensures
            r == (IVec3 { x, y, z }),
    {
        IVec3 { x, y, z }
    }
}

pub fn ivec3(x: i32, y: i32, z: i32) -> (r: IVec3)
    ensures
        r == (IVec3 { x, y, z }),
{
    IVec3 { x, y, z }
}

/// Chunk coordinates a world can actually address: small enough that any
/// world-space block position inside the chunk fits an `i32` axis.
pub open spec fn chunk_pos_bounded(p: IVec3) -> bool {
    &&& -0x0200_0000 <= p.x <= 0x0200_0000
    &&& -0x0200_0000 <= p.y <= 0x0200_0000
    &&& -0x0200_0000 <= p.z <= 0x0200_0000
}

/// Whether `pos` lies strictly inside the open chunk-grid box of radius
/// `distance` around `center`: each axis of `pos - center` is strictly
/// between `-distance` and `distance`.
pub open spec fn in_bounds_spec(pos: IVec3, center: IVec3, distance: int) -> bool {
    &&& -distance < pos.x - center.x < distance
    &&& -distance < pos.y - center.y < distance
    &&& -distance < pos.z - center.z < distance
}

/// Strict max-norm bounds test for chunk coordinates relative to a center.
/// Coordinates whose offset reaches `distance` on any axis are outside.
pub fn in_bounds(chunk_pos: IVec3, center: IVec3, distance: i32) -> (r: bool)
    ensures
        r == in_bounds_spec(chunk_pos, center, distance as int),
{
    let dx: i64 = chunk_pos.x as i64 - center.x as i64;
    let dy: i64 = chunk_pos.y as i64 - center.y as i64;
    let dz: i64 = chunk_pos.z as i64 - center.z as i64;
    let d: i64 = distance as i64;
    dx > -d && dx < d && dy > -d && dy < d && dz > -d && dz < d
}

/// Chunk-grid coordinate of the chunk that owns world coordinate `w` on one
/// axis: the floor of `w / 32`.
pub open spec fn chunk_coord_spec(w: int) -> int {
    w / 32
}

/// Block coordinate of `w` local to its owning chunk, on one axis: `w mod 32`,
/// always in `[0, 32)`.
pub open spec fn local_coord_spec(w: int) -> int {
    w % 32
}

/// Floor-divides one world axis by the chunk side to find the owning chunk.
pub fn world_to_chunk(w: i32) -> (r: i32)
    ensures
        r as int == chunk_coord_spec(w as int),
{
    let off: u64 = (w as i64 + 0x8000_0000i64) as u64;
    let q: u64 = off / 32;
    let r64: i64 = q as i64 - 0x0400_0000i64;
    proof {
        lemma_fundamental_div_mod_converse(w as int, 32, r64 as int, (off % 32) as int);
    }
    r64 as i32
}

/// Reduces one world axis to the owning chunk's local coordinate in `[0, 32)`.
pub fn world_to_local(w: i32) -> (r: usize)
    ensures
        r as int == local_coord_spec(w as int),
        r < 32,
{
    let off: u64 = (w as i64 + 0x8000_0000i64) as u64;
    let q: u64 = off / 32;
    let m: u64 = off % 32;
    proof {
        lemma_fundamental_div_mod_converse(
            w as int,
            32,
            q as int - 0x0400_0000,
            m as int,
        );
    }
    m as usize
}

} // verus!
