use vstd::prelude::*;
use vstd::arithmetic::div_mod::lemma_multiply_divide_lt;
use crate::chunk::{
    flat_index_spec,
    lemma_flat_unflatten,
    lemma_unflatten_flatten,
    unflatten_x_spec,
    unflatten_y_spec,
    unflatten_z_spec,
    Chunk,
};
use crate::coords::IVec3;

verus! {

// Terrain is a height field: every world column `(x, z)` has a height
// threshold sampled from a seeded 2-D coherent-noise field, and every
// block strictly below the threshold is solid stone while everything at or
// above it is air. Noise sampling is floating-point work and is done by
// the caller; the fill below is a pure function of the chunk coordinate
// and the sampled thresholds, so generation is referentially transparent:
// the same coordinate and thresholds give bitwise-identical chunks on any
// thread, in any order.

/// Seed of the world's height field, shared by every sampler.
pub const WORLD_SEED: u32 = 10000;

/// The block id terrain fills below the height threshold.
pub const STONE_BLOCK: u8 = 1;

/// Column index inside a chunk footprint of the local position a flat
/// index encodes: `lx * 32 + lz`.
pub open spec fn column_key_spec(i: int) -> int {
    unflatten_x_spec(i) * 32 + unflatten_z_spec(i)
}

/// The block terrain puts at flat index `i` of the chunk at `pos`, given
/// the height thresholds of the chunk's `32 * 32` world columns (indexed
/// `lx * 32 + lz`): stone below the column's threshold, air at or above.
pub open spec fn gen_block_spec(pos: IVec3, heights: Seq<i32>, i: int) -> u8 {
    if pos.y * 32 + unflatten_y_spec(i) < heights[column_key_spec(i)] {
        STONE_BLOCK
    } else {
        0u8
    }
}

/// The full block array of the chunk at `pos` under the given thresholds.
pub open spec fn gen_spec(pos: IVec3, heights: Seq<i32>) -> Seq<u8> {
    Seq::new(32768, |i: int| gen_block_spec(pos, heights, i))
}

/// Column-major processing order of the fill loop: all columns before
/// `col`, plus the part of column `col` below `ly`, have their final value.
spec fn gen_processed(i: int, col: int, ly: int) -> bool {
    column_key_spec(i) < col || (column_key_spec(i) == col && unflatten_y_spec(i) < ly)
}

/// Fills a fresh chunk with terrain for the chunk at `chunk_pos`, one
/// sampled height threshold per world column of its footprint.
pub fn gen_blocks(chunk: &mut Chunk, chunk_pos: IVec3, heights: &Vec<i32>)
    requires
        old(chunk).wf(),
        old(chunk).blocks@ == Seq::new(32768, |i: int| 0u8),
        heights@.len() == 1024,
    ensures
        final(chunk).wf(),
        final(chunk).pos == old(chunk).pos,
        final(chunk).blocks@ == gen_spec(chunk_pos, heights@),
{
    let mut col: usize = 0;
    while col < 1024
        invariant
            col <= 1024,
            chunk.wf(),
            chunk.pos == old(chunk).pos,
            heights@.len() == 1024,
            forall|i: int|
                0 <= i < 32768 ==> chunk.blocks@[i] == (if gen_processed(i, col as int, 0) {
                    gen_block_spec(chunk_pos, heights@, i)
                } else {
                    0u8
                }),
        decreases 1024 - col,
    {
        let h: i32 = heights[col];
        let mut ly: usize = 0;
        while ly < 32
            invariant
                ly <= 32,
                col < 1024,
                heights@.len() == 1024,
                h == heights@[col as int],
                chunk.wf(),
                chunk.pos == old(chunk).pos,
                forall|i: int|
                    0 <= i < 32768 ==> chunk.blocks@[i] == (if gen_processed(
                        i,
                        col as int,
                        ly as int,
                    ) {
                        gen_block_spec(chunk_pos, heights@, i)
                    } else {
                        0u8
                    }),
            decreases 32 - ly,
        {
            let lx: usize = col / 32;
            let lz: usize = col % 32;
            proof {
                lemma_multiply_divide_lt(col as int, 32, 32);
            }
            let wy_ok: bool = {
                let wy: i64 = (chunk_pos.y as i64) * 32 + ly as i64;
                wy < h as i64
            };
            let ghost j: int = flat_index_spec(lx as int, ly as int, lz as int);
            proof {
                lemma_flat_unflatten(lx as int, ly as int, lz as int);
                assert(column_key_spec(j) == col);
                assert(!gen_processed(j, col as int, ly as int));
            }
            if wy_ok {
                chunk.set_block(lx, ly, lz, STONE_BLOCK);
            }
            proof {
                assert forall|i: int| 0 <= i < 32768 implies chunk.blocks@[i] == (
                if gen_processed(i, col as int, ly + 1) {
                    gen_block_spec(chunk_pos, heights@, i)
                } else {
                    0u8
                }) by {
                    lemma_unflatten_flatten(i);
                    if i != j {
                        assert(gen_processed(i, col as int, ly + 1) == gen_processed(
                            i,
                            col as int,
                            ly as int,
                        ));
                    } else {
                        assert(gen_block_spec(chunk_pos, heights@, j) == (if chunk_pos.y * 32
                            + ly < heights@[col as int] {
                            STONE_BLOCK
                        } else {
                            0u8
                        }));
                    }
                };
            }
            ly = ly + 1;
        }
        proof {
            assert forall|i: int| 0 <= i < 32768 implies gen_processed(i, col as int, 32)
                == gen_processed(i, col + 1, 0) by {
                lemma_unflatten_flatten(i);
            };
        }
        col = col + 1;
    }
    proof {
        assert forall|i: int| 0 <= i < 32768 implies gen_processed(i, 1024, 0) by {
            lemma_unflatten_flatten(i);
        };
        assert(chunk.blocks@ =~= gen_spec(chunk_pos, heights@));
    }
}

/// Generates the chunk at `pos` from its sampled column thresholds: the
/// server's authoritative terrain source.
pub fn gen_chunk(pos: IVec3, heights: &Vec<i32>) -> (r: Chunk)
    requires
        heights@.len() == 1024,
    ensures
        r.wf(),
        r.pos == pos,
        r.blocks@ == gen_spec(pos, heights@),
{
    let mut chunk = Chunk::new(pos);
    gen_blocks(&mut chunk, pos, heights);
    chunk
}

/// Generation is referentially transparent: any two chunks built for the
/// same coordinate from the same sampled thresholds are bitwise identical,
/// so repeated calls with one coordinate and one height field agree.
pub proof fn lemma_gen_deterministic(a: Chunk, b: Chunk, pos: IVec3, heights: Seq<i32>)
    requires
        a.blocks@ == gen_spec(pos, heights),
        b.blocks@ == gen_spec(pos, heights),
    ensures
        a.blocks@ == b.blocks@,
{
}

} // verus!
