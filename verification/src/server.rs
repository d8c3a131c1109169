use vstd::prelude::*;
use crate::chunk::Chunk;
use crate::coords::IVec3;
use crate::ranges::{box_coord_spec, box_len_spec, extent_spec, in_box_spec, iter_3d_vec, matches_coord};
use crate::worldgen::{gen_chunk, gen_spec};

verus! {

// The server answers one chunk-range request with one chunk per coordinate
// of the range, walked in a fixed order. Range bounds are inclusive on
// every axis: `start == end` asks for a single chunk. Noise sampling is
// the caller's: it hands in one height table per coordinate of the range,
// in walk order.

/// The corner one past `end`, turning the inclusive range into the
/// half-open box the walk uses.
pub open spec fn range_end_excl_spec(end: IVec3) -> IVec3 {
    IVec3 { x: (end.x + 1) as i32, y: (end.y + 1) as i32, z: (end.z + 1) as i32 }
}

/// Number of chunks an inclusive range asks for.
pub open spec fn range_count_spec(start: IVec3, end: IVec3) -> int {
    box_len_spec(start, range_end_excl_spec(end))
}

/// Generates every chunk of the inclusive range `[start, end]`, in walk
/// order, one sampled height table per chunk.
pub fn respond_to_range(start: IVec3, end: IVec3, heights: &Vec<Vec<i32>>) -> (r: Vec<Chunk>)
    requires
        end.x < i32::MAX,
        end.y < i32::MAX,
        end.z < i32::MAX,
        extent_spec(start.x as int, end.x + 1) <= 1024,
        extent_spec(start.y as int, end.y + 1) <= 1024,
        extent_spec(start.z as int, end.z + 1) <= 1024,
        heights@.len() == range_count_spec(start, end),
        forall|j: int| 0 <= j < heights@.len() ==> (#[trigger] heights@[j])@.len() == 1024,
    ensures
        r@.len() == range_count_spec(start, end),
        forall|j: int|
            0 <= j < r@.len() ==> matches_coord(
                (#[trigger] r@[j]).pos,
                box_coord_spec(start, range_end_excl_spec(end), j),
            ),
        forall|j: int|
            0 <= j < r@.len() ==> in_box_spec(
                (#[trigger] r@[j]).pos,
                start,
                range_end_excl_spec(end),
            ),
        forall|j: int|
            0 <= j < r@.len() ==> (#[trigger] r@[j]).wf() && r@[j].blocks@ == gen_spec(
                r@[j].pos,
                heights@[j]@,
            ),
{
    let end_excl = IVec3 { x: end.x + 1, y: end.y + 1, z: end.z + 1 };
    let positions = iter_3d_vec(start, end_excl);
    let mut out: Vec<Chunk> = Vec::new();
    let mut j: usize = 0;
    while j < positions.len()
        invariant
            j <= positions@.len(),
            end_excl == range_end_excl_spec(end),
            positions@.len() == range_count_spec(start, end),
            heights@.len() == range_count_spec(start, end),
            forall|k: int| 0 <= k < heights@.len() ==> (#[trigger] heights@[k])@.len() == 1024,
            forall|k: int|
                0 <= k < positions@.len() ==> matches_coord(
                    #[trigger] positions@[k],
                    box_coord_spec(start, end_excl, k),
                ),
            forall|k: int|
                0 <= k < positions@.len() ==> in_box_spec(
                    #[trigger] positions@[k],
                    start,
                    end_excl,
                ),
            out@.len() == j,
            forall|k: int| 0 <= k < j as int ==> (#[trigger] out@[k]).pos == positions@[k],
            forall|k: int|
                0 <= k < j as int ==> (#[trigger] out@[k]).wf() && out@[k].blocks@ == gen_spec(
                    out@[k].pos,
                    heights@[k]@,
                ),
        decreases positions@.len() - j,
    {
        let chunk = gen_chunk(positions[j], &heights[j]);
        out.push(chunk);
        j = j + 1;
    }
    out
}

} // verus!
