use vstd::prelude::*;
use vstd::arithmetic::div_mod::{
    lemma_div_denominator,
    lemma_fundamental_div_mod_converse,
    lemma_multiply_divide_lt,
};
use crate::coords::IVec3;

verus! {

/// Identifies a voxel's material; `0` is air, any other value is solid.
pub type BlockID = u8;

/// Row-major flat index of a local block position inside a chunk:
/// `y` selects the layer, `z` the row, `x` the column.
pub open spec fn flat_index_spec(x: int, y: int, z: int) -> int {
    y * 1024 + z * 32 + x
}

/// Flattens a local block position (each axis in `[0, 32)`) into an index
/// into a chunk's block array.
pub fn pos_to_index(x: usize, y: usize, z: usize) -> (r: usize)
    requires
        x < 32,
        y < 32,
        z < 32,
    ensures
        r as int == flat_index_spec(x as int, y as int, z as int),
        r < 32768,
{
    y * 1024 + z * 32 + x
}

/// Local `x` coordinate encoded in a flat index.
pub open spec fn unflatten_x_spec(i: int) -> int {
    i % 32
}

/// Local `y` coordinate encoded in a flat index.
pub open spec fn unflatten_y_spec(i: int) -> int {
    i / 1024
}

/// Local `z` coordinate encoded in a flat index.
pub open spec fn unflatten_z_spec(i: int) -> int {
    (i / 32) % 32
}

/// Flattening a local position and reading the axes back are inverse.
pub proof fn lemma_flat_unflatten(x: int, y: int, z: int)
    requires
        0 <= x < 32,
        0 <= y < 32,
        0 <= z < 32,
    ensures
        0 <= flat_index_spec(x, y, z) < 32768,
        unflatten_x_spec(flat_index_spec(x, y, z)) == x,
        unflatten_y_spec(flat_index_spec(x, y, z)) == y,
        unflatten_z_spec(flat_index_spec(x, y, z)) == z,
{
    let f = flat_index_spec(x, y, z);
    assert(f == 32 * (y * 32 + z) + x);
    lemma_fundamental_div_mod_converse(f, 32, y * 32 + z, x);
    assert(f / 32 == y * 32 + z);
    assert(f % 32 == x);
    lemma_fundamental_div_mod_converse(y * 32 + z, 32, y, z);
    lemma_div_denominator(f, 32, 32);
    assert(f / 1024 == (f / 32) / 32);
}

/// Every flat index below the chunk volume is the flattening of the local
/// position it encodes.
pub proof fn lemma_unflatten_flatten(i: int)
    requires
        0 <= i < 32768,
    ensures
        0 <= unflatten_x_spec(i) < 32,
        0 <= unflatten_y_spec(i) < 32,
        0 <= unflatten_z_spec(i) < 32,
        flat_index_spec(unflatten_x_spec(i), unflatten_y_spec(i), unflatten_z_spec(i)) == i,
{
    let x = i % 32;
    let q = i / 32;
    assert(i == 32 * q + x);
    let z = q % 32;
    let q2 = q / 32;
    assert(q == 32 * q2 + z);
    lemma_div_denominator(i, 32, 32);
    assert(q2 == i / 1024);
    lemma_multiply_divide_lt(i, 1024, 32);
    assert(q2 < 32);
    lemma_multiply_divide_lt(i, 32, 1024);
    assert(0 <= q2);
    assert(flat_index_spec(x, q2, z) == q2 * 1024 + z * 32 + x);
    assert(i == 32 * (32 * q2 + z) + x);
}

/// A cube of `32 * 32 * 32` blocks together with its chunk-grid coordinate.
pub struct Chunk {
    pub blocks: Vec<BlockID>,
    pub pos: IVec3,
}

impl Chunk {
    /// A chunk is well formed when it holds exactly one block per cell of
    /// the cube.
    pub open spec fn wf(self) -> bool {
        self.blocks@.len() == 32768
    }

    /// Block contents at a flattened local position.
    pub open spec fn block_at(self, x: int, y: int, z: int) -> BlockID {
        self.blocks@[flat_index_spec(x, y, z)]
    }

    /// Creates an all-air chunk at the given chunk coordinate.
    pub fn new(pos: IVec3) -> (r: Chunk)
        ensures
            r.wf(),
            r.pos == pos,
            r.blocks@ == Seq::new(32768, |i: int| 0u8),
    {
        let mut blocks: Vec<BlockID> = Vec::new();
        let mut i: usize = 0;
        while i < 32768
            invariant
                i <= 32768,
                blocks@.len() == i as int,
                forall|j: int| 0 <= j < i as int ==> blocks@[j] == 0u8,
            decreases 32768 - i,
        {
            blocks.push(0u8);
            i = i + 1;
        }
        proof {
            assert(blocks@ =~= Seq::new(32768, |i: int| 0u8));
        }
        Chunk { blocks, pos }
    }

    /// Overwrites the block at a local position.
    pub fn set_block(&mut self, x: usize, y: usize, z: usize, id: BlockID)
        requires
            old(self).wf(),
            x < 32,
            y < 32,
            z < 32,
        ensures
            final(self).wf(),
            final(self).pos == old(self).pos,
            final(self).blocks@ == old(self).blocks@.update(
                flat_index_spec(x as int, y as int, z as int),
                id,
            ),
    {
        let i = pos_to_index(x, y, z);
        self.blocks.set(i, id);
    }

    /// Reads the block at a local position.
    pub fn get_block(&self, x: usize, y: usize, z: usize) -> (r: BlockID)
        requires
            self.wf(),
            x < 32,
            y < 32,
            z < 32,
        ensures
            r == self.block_at(x as int, y as int, z as int),
    {
        let i = pos_to_index(x, y, z);
        self.blocks[i]
    }

    /// Reads the block at a local position given as signed offsets, or
    /// `None` when any axis falls outside the cube.
    pub fn try_get_block(&self, x: i32, y: i32, z: i32) -> (r: Option<BlockID>)
        requires
            self.wf(),
        ensures
            (0 <= x < 32 && 0 <= y < 32 && 0 <= z < 32) ==> r == Some(
                self.block_at(x as int, y as int, z as int),
            ),
            !(0 <= x < 32 && 0 <= y < 32 && 0 <= z < 32) ==> r is None,
    {
        if x < 0 || x >= 32 || y < 0 || y >= 32 || z < 0 || z >= 32 {
            None
        } else {
            Some(self.get_block(x as usize, y as usize, z as usize))
        }
    }
}

} // verus!
