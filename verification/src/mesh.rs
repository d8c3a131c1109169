use vstd::prelude::*;
use vstd::arithmetic::div_mod::lemma_fundamental_div_mod_converse;
use crate::chunk::{
    lemma_unflatten_flatten,
    unflatten_x_spec,
    unflatten_y_spec,
    unflatten_z_spec,
    Chunk,
};
use crate::coords::{chunk_pos_bounded, IVec3};
use crate::store::{block_at_world_spec, ChunkManager};

verus! {

// The mesh builder walks every block of one chunk and, for each solid
// block and each of the six axis-aligned directions, emits one quad when
// the neighboring block is air. Neighbor queries are answered from the
// loaded-chunk mapping; a neighbor inside a chunk that is not loaded
// counts as air, so the boundary face is drawn. That is a deliberate
// simplification: the face may be hidden later when the neighbor chunk
// arrives and is re-meshed.
//
// Each vertex is one packed 32-bit value: local x, y and z in six bits
// each, then a two-bit corner index and a three-bit face direction.

/// Unit offset of each face direction. In order: north `+z`, south `-z`,
/// east `+x`, west `-x`, top `+y`, bottom `-y`.
pub open spec fn dir_vec_spec(dir: int) -> (int, int, int) {
    if dir == 0 {
        (0, 0, 1)
    } else if dir == 1 {
        (0, 0, -1)
    } else if dir == 2 {
        (1, 0, 0)
    } else if dir == 3 {
        (-1, 0, 0)
    } else if dir == 4 {
        (0, 1, 0)
    } else {
        (0, -1, 0)
    }
}

/// Unit offset of a face direction, as a coordinate vector.
pub fn direction_to_vector(dir: usize) -> (r: IVec3)
    requires
        dir < 6,
    ensures
        r.x as int == dir_vec_spec(dir as int).0,
        r.y as int == dir_vec_spec(dir as int).1,
        r.z as int == dir_vec_spec(dir as int).2,
{
    if dir == 0 {
        IVec3 { x: 0, y: 0, z: 1 }
    } else if dir == 1 {
        IVec3 { x: 0, y: 0, z: -1 }
    } else if dir == 2 {
        IVec3 { x: 1, y: 0, z: 0 }
    } else if dir == 3 {
        IVec3 { x: -1, y: 0, z: 0 }
    } else if dir == 4 {
        IVec3 { x: 0, y: 1, z: 0 }
    } else {
        IVec3 { x: 0, y: -1, z: 0 }
    }
}

/// Corner `c` of the quad that faces direction `dir`, as offsets in
/// `{0, 1}` from the block's low corner, wound counterclockwise seen from
/// outside.
pub open spec fn corner_offset_spec(dir: int, c: int) -> (int, int, int) {
    if dir == 0 {
        if c == 0 {
            (1, 1, 1)
        } else if c == 1 {
            (0, 1, 1)
        } else if c == 2 {
            (0, 0, 1)
        } else {
            (1, 0, 1)
        }
    } else if dir == 1 {
        if c == 0 {
            (0, 1, 0)
        } else if c == 1 {
            (1, 1, 0)
        } else if c == 2 {
            (1, 0, 0)
        } else {
            (0, 0, 0)
        }
    } else if dir == 2 {
        if c == 0 {
            (1, 1, 0)
        } else if c == 1 {
            (1, 1, 1)
        } else if c == 2 {
            (1, 0, 1)
        } else {
            (1, 0, 0)
        }
    } else if dir == 3 {
        if c == 0 {
            (0, 1, 1)
        } else if c == 1 {
            (0, 1, 0)
        } else if c == 2 {
            (0, 0, 0)
        } else {
            (0, 0, 1)
        }
    } else if dir == 4 {
        if c == 0 {
            (1, 1, 0)
        } else if c == 1 {
            (0, 1, 0)
        } else if c == 2 {
            (0, 1, 1)
        } else {
            (1, 1, 1)
        }
    } else {
        if c == 0 {
            (0, 0, 0)
        } else if c == 1 {
            (1, 0, 0)
        } else if c == 2 {
            (1, 0, 1)
        } else {
            (0, 0, 1)
        }
    }
}

/// Corner `c` of the quad facing `dir`, as executable offsets.
fn corner_offset(dir: usize, c: usize) -> (r: (u32, u32, u32))
    requires
        dir < 6,
        c < 4,
    ensures
        r.0 as int == corner_offset_spec(dir as int, c as int).0,
        r.1 as int == corner_offset_spec(dir as int, c as int).1,
        r.2 as int == corner_offset_spec(dir as int, c as int).2,
{
    if dir == 0 {
        if c == 0 {
            (1, 1, 1)
        } else if c == 1 {
            (0, 1, 1)
        } else if c == 2 {
            (0, 0, 1)
        } else {
            (1, 0, 1)
        }
    } else if dir == 1 {
        if c == 0 {
            (0, 1, 0)
        } else if c == 1 {
            (1, 1, 0)
        } else if c == 2 {
            (1, 0, 0)
        } else {
            (0, 0, 0)
        }
    } else if dir == 2 {
        if c == 0 {
            (1, 1, 0)
        } else if c == 1 {
            (1, 1, 1)
        } else if c == 2 {
            (1, 0, 1)
        } else {
            (1, 0, 0)
        }
    } else if dir == 3 {
        if c == 0 {
            (0, 1, 1)
        } else if c == 1 {
            (0, 1, 0)
        } else if c == 2 {
            (0, 0, 0)
        } else {
            (0, 0, 1)
        }
    } else if dir == 4 {
        if c == 0 {
            (1, 1, 0)
        } else if c == 1 {
            (0, 1, 0)
        } else if c == 2 {
            (0, 1, 1)
        } else {
            (1, 1, 1)
        }
    } else {
        if c == 0 {
            (0, 0, 0)
        } else if c == 1 {
            (1, 0, 0)
        } else if c == 2 {
            (1, 0, 1)
        } else {
            (0, 0, 1)
        }
    }
}

/// The packed form of one vertex: local position, corner index and face
/// direction in disjoint bit ranges of one 32-bit value.
pub open spec fn pack_vertex_spec(x: int, y: int, z: int, c: int, dir: int) -> int {
    x + y * 64 + z * 4096 + c * 262144 + dir * 1048576
}

/// Packs one vertex.
pub fn pack_vertex(x: u32, y: u32, z: u32, c: u32, dir: u32) -> (r: u32)
    requires
        x <= 33,
        y <= 33,
        z <= 33,
        c < 4,
        dir < 6,
    ensures
        r as int == pack_vertex_spec(x as int, y as int, z as int, c as int, dir as int),
{
    x + y * 64 + z * 4096 + c * 262144 + dir * 1048576
}

/// The four packed vertices of the quad on face `dir` of the block at
/// local position `(bx, by, bz)`.
pub open spec fn face_seq_spec(bx: int, by: int, bz: int, dir: int) -> Seq<u32> {
    Seq::new(
        4,
        |c: int|
            (pack_vertex_spec(
                bx + corner_offset_spec(dir, c).0,
                by + corner_offset_spec(dir, c).1,
                bz + corner_offset_spec(dir, c).2,
                c,
                dir,
            )) as u32,
    )
}

/// Appends the quad on face `dir` of the block at `(bx, by, bz)`.
fn add_face(verts: &mut Vec<u32>, bx: usize, by: usize, bz: usize, dir: usize)
    requires
        bx < 32,
        by < 32,
        bz < 32,
        dir < 6,
    ensures
        final(verts)@ == old(verts)@ + face_seq_spec(bx as int, by as int, bz as int, dir as int),
{
    let ghost base = verts@;
    let mut c: usize = 0;
    while c < 4
        invariant
            c <= 4,
            bx < 32,
            by < 32,
            bz < 32,
            dir < 6,
            verts@ == base + face_seq_spec(bx as int, by as int, bz as int, dir as int).take(
                c as int,
            ),
        decreases 4 - c,
    {
        let off = corner_offset(dir, c as usize);
        let v = pack_vertex(
            bx as u32 + off.0,
            by as u32 + off.1,
            bz as u32 + off.2,
            c as u32,
            dir as u32,
        );
        proof {
            let f = face_seq_spec(bx as int, by as int, bz as int, dir as int);
            assert(f[c as int] == v);
            assert(base + f.take(c + 1) =~= (base + f.take(c as int)).push(v));
        }
        verts.push(v);
        c = c + 1;
    }
    proof {
        let f = face_seq_spec(bx as int, by as int, bz as int, dir as int);
        assert(f.take(4) =~= f);
    }
}

/// Whether face `dir` of the block at flat index `i` of the chunk at `pos`
/// is visible: the neighboring block, read from the loaded-chunk mapping
/// in world space, is air. A neighbor in an unloaded chunk counts as air.
pub open spec fn face_visible_spec(m: Map<IVec3, Seq<u8>>, pos: IVec3, i: int, dir: int) -> bool {
    let d = dir_vec_spec(dir);
    let w = IVec3 {
        x: (pos.x * 32 + unflatten_x_spec(i) + d.0) as i32,
        y: (pos.y * 32 + unflatten_y_spec(i) + d.1) as i32,
        z: (pos.z * 32 + unflatten_z_spec(i) + d.2) as i32,
    };
    block_at_world_spec(m, w) == 0
}

/// The quads the block at flat index `i` contributes, over directions
/// below `dir`.
pub open spec fn faces_upto_spec(m: Map<IVec3, Seq<u8>>, pos: IVec3, i: int, dir: int) -> Seq<u32>
    decreases dir,
{
    if dir <= 0 {
        Seq::empty()
    } else {
        faces_upto_spec(m, pos, i, dir - 1) + (if face_visible_spec(m, pos, i, dir - 1) {
            face_seq_spec(
                unflatten_x_spec(i),
                unflatten_y_spec(i),
                unflatten_z_spec(i),
                dir - 1,
            )
        } else {
            Seq::empty()
        })
    }
}

/// All quads of the block at flat index `i`: none when it is air, else
/// one per visible face.
pub open spec fn block_faces_spec(m: Map<IVec3, Seq<u8>>, pos: IVec3, i: int) -> Seq<u32> {
    if m[pos][i] == 0 {
        Seq::empty()
    } else {
        faces_upto_spec(m, pos, i, 6)
    }
}

/// The mesh of the chunk at `pos`, over blocks with flat index below `i`.
pub open spec fn mesh_upto_spec(m: Map<IVec3, Seq<u8>>, pos: IVec3, i: int) -> Seq<u32>
    decreases i,
{
    if i <= 0 {
        Seq::empty()
    } else {
        mesh_upto_spec(m, pos, i - 1) + block_faces_spec(m, pos, i - 1)
    }
}

/// The packed vertex data of the chunk at `pos` under the loaded-chunk
/// mapping `m`: every visible face of every solid block, in block order.
pub open spec fn mesh_spec(m: Map<IVec3, Seq<u8>>, pos: IVec3) -> Seq<u32> {
    mesh_upto_spec(m, pos, 32768)
}

/// Worst case for one chunk: a three-dimensional checkerboard, half the
/// volume solid, every face of every solid block visible.
pub const MAX_QUADS: usize = 32768 / 2 * 6;

/// Packed vertex data derived from one chunk, keyed by its coordinate.
pub struct ChunkMesh {
    pub vertices: Vec<u32>,
    pub chunk_pos: IVec3,
}

impl ChunkMesh {
    /// Builds the mesh of `chunk` against the loaded chunks around it.
    /// A chunk none of whose faces are visible yields no mesh at all.
    /// Neighbor checks inside the chunk read its own array directly; only
    /// face queries that cross the chunk boundary fall back to the store.
    pub fn new(chunk: &Chunk, chunk_manager: &ChunkManager) -> (r: Option<ChunkMesh>)
        requires
            chunk.wf(),
            chunk_manager.wf(),
            chunk_pos_bounded(chunk.pos),
            chunk_manager.map_spec().contains_key(chunk.pos),
            chunk_manager.map_spec()[chunk.pos] == chunk.blocks@,
        ensures
            match r {
                Some(mesh) => {
                    &&& mesh.vertices@ == mesh_spec(chunk_manager.map_spec(), chunk.pos)
                    &&& mesh.vertices@.len() > 0
                    &&& mesh.chunk_pos == chunk.pos
                },
                None => mesh_spec(chunk_manager.map_spec(), chunk.pos).len() == 0,
            },
    {
        let ghost m = chunk_manager.map_spec();
        let pos = chunk.pos;
        // sized for the worst case up front, so one build never reallocates
        let mut verts: Vec<u32> = Vec::with_capacity(MAX_QUADS * 4);
        let mut i: usize = 0;
        while i < 32768
            invariant
                i <= 32768,
                chunk.wf(),
                chunk_manager.wf(),
                chunk_pos_bounded(chunk.pos),
                pos == chunk.pos,
                m == chunk_manager.map_spec(),
                m.contains_key(pos),
                m[pos] == chunk.blocks@,
                verts@ == mesh_upto_spec(m, pos, i as int),
            decreases 32768 - i,
        {
            let b = chunk.blocks[i];
            if b != 0 {
                let x: usize = i % 32;
                let z: usize = (i / 32) % 32;
                let y: usize = i / 1024;
                proof {
                    lemma_unflatten_flatten(i as int);
                }
                let mut dir: usize = 0;
                while dir < 6
                    invariant
                        dir <= 6,
                        i < 32768,
                        chunk.wf(),
                        chunk_manager.wf(),
                        chunk_pos_bounded(chunk.pos),
                        pos == chunk.pos,
                        m == chunk_manager.map_spec(),
                        m.contains_key(pos),
                        m[pos] == chunk.blocks@,
                        x as int == unflatten_x_spec(i as int),
                        y as int == unflatten_y_spec(i as int),
                        z as int == unflatten_z_spec(i as int),
                        x < 32,
                        y < 32,
                        z < 32,
                        verts@ == mesh_upto_spec(m, pos, i as int) + faces_upto_spec(
                            m,
                            pos,
                            i as int,
                            dir as int,
                        ),
                    decreases 6 - dir,
                {
                    let d = direction_to_vector(dir);
                    let nx: i32 = x as i32 + d.x;
                    let ny: i32 = y as i32 + d.y;
                    let nz: i32 = z as i32 + d.z;
                    let wx: i32 = pos.x * 32 + nx;
                    let wy: i32 = pos.y * 32 + ny;
                    let wz: i32 = pos.z * 32 + nz;
                    let ghost w = IVec3 { x: wx, y: wy, z: wz };
                    let neighbor: u8 = if 0 <= nx && nx < 32 && 0 <= ny && ny < 32 && 0 <= nz
                        && nz < 32 {
                        proof {
                            lemma_intra_chunk_lookup(m, pos, nx as int, ny as int, nz as int);
                        }
                        chunk.get_block(nx as usize, ny as usize, nz as usize)
                    } else {
                        chunk_manager.get_block(IVec3 { x: wx, y: wy, z: wz })
                    };
                    proof {
                        assert(neighbor == block_at_world_spec(m, w));
                        assert((neighbor == 0) == face_visible_spec(m, pos, i as int, dir as int));
                    }
                    if neighbor == 0 {
                        add_face(&mut verts, x, y, z, dir);
                    }
                    proof {
                        assert(faces_upto_spec(m, pos, i as int, dir + 1) == faces_upto_spec(
                            m,
                            pos,
                            i as int,
                            dir as int,
                        ) + (if face_visible_spec(m, pos, i as int, dir as int) {
                            face_seq_spec(
                                unflatten_x_spec(i as int),
                                unflatten_y_spec(i as int),
                                unflatten_z_spec(i as int),
                                dir as int,
                            )
                        } else {
                            Seq::empty()
                        }));
                        if !face_visible_spec(m, pos, i as int, dir as int) {
                            assert(verts@ + Seq::<u32>::empty() =~= verts@);
                        }
                    }
                    dir = dir + 1;
                }
                proof {
                    assert(block_faces_spec(m, pos, i as int) == faces_upto_spec(
                        m,
                        pos,
                        i as int,
                        6,
                    ));
                }
            } else {
                proof {
                    assert(block_faces_spec(m, pos, i as int) =~= Seq::<u32>::empty());
                    assert(verts@ + Seq::<u32>::empty() =~= verts@);
                }
            }
            i = i + 1;
        }
        if verts.len() > 0 {
            Some(ChunkMesh { vertices: verts, chunk_pos: chunk.pos })
        } else {
            None
        }
    }
}

/// A world lookup that stays inside the chunk's own cube reads the
/// chunk's own array: the owning chunk of `pos * 32 + local` is `pos`.
proof fn lemma_intra_chunk_lookup(m: Map<IVec3, Seq<u8>>, pos: IVec3, nx: int, ny: int, nz: int)
    requires
        chunk_pos_bounded(pos),
        0 <= nx < 32,
        0 <= ny < 32,
        0 <= nz < 32,
        m.contains_key(pos),
    ensures
        ({
            let w = IVec3 {
                x: (pos.x * 32 + nx) as i32,
                y: (pos.y * 32 + ny) as i32,
                z: (pos.z * 32 + nz) as i32,
            };
            block_at_world_spec(m, w) == m[pos][crate::chunk::flat_index_spec(nx, ny, nz)]
        }),
{
    lemma_fundamental_div_mod_converse(pos.x * 32 + nx, 32, pos.x as int, nx);
    lemma_fundamental_div_mod_converse(pos.y * 32 + ny, 32, pos.y as int, ny);
    lemma_fundamental_div_mod_converse(pos.z * 32 + nz, 32, pos.z as int, nz);
    let w = IVec3 {
        x: (pos.x * 32 + nx) as i32,
        y: (pos.y * 32 + ny) as i32,
        z: (pos.z * 32 + nz) as i32,
    };
    assert(w.x as int == pos.x * 32 + nx);
    assert(w.y as int == pos.y * 32 + ny);
    assert(w.z as int == pos.z * 32 + nz);
    assert(crate::store::world_chunk_spec(w) == pos);
}


/// The chunk-grid neighbor of `pos` in face direction `dir`.
pub open spec fn chunk_neighbor_spec(pos: IVec3, dir: int) -> IVec3 {
    let d = dir_vec_spec(dir);
    IVec3 { x: (pos.x + d.0) as i32, y: (pos.y + d.1) as i32, z: (pos.z + d.2) as i32 }
}

/// A chunk that is loaded and entirely solid.
pub open spec fn all_solid_spec(m: Map<IVec3, Seq<u8>>, p: IVec3) -> bool {
    &&& m.contains_key(p)
    &&& m[p].len() == 32768
    &&& forall|i: int| 0 <= i < 32768 ==> m[p][i] != 0
}

/// A chunk position that reads as air everywhere: not loaded at all, or
/// loaded with every block empty.
pub open spec fn all_air_or_absent_spec(m: Map<IVec3, Seq<u8>>, p: IVec3) -> bool {
    !m.contains_key(p) || (m[p].len() == 32768 && forall|i: int|
        0 <= i < 32768 ==> m[p][i] == 0)
}

/// What a world lookup one step outside or inside a chunk's cube reads:
/// the block of the owning chunk, which is `pos` itself or the neighbor
/// one over on the axis that stepped out.
proof fn lemma_offset_lookup(m: Map<IVec3, Seq<u8>>, pos: IVec3, nx: int, ny: int, nz: int)
    requires
        chunk_pos_bounded(pos),
        -1 <= nx <= 32,
        -1 <= ny <= 32,
        -1 <= nz <= 32,
    ensures
        ({
            let ox: int = if nx < 0 { -1 } else if nx >= 32 { 1 } else { 0 };
            let oy: int = if ny < 0 { -1 } else if ny >= 32 { 1 } else { 0 };
            let oz: int = if nz < 0 { -1 } else if nz >= 32 { 1 } else { 0 };
            let owner = IVec3 {
                x: (pos.x + ox) as i32,
                y: (pos.y + oy) as i32,
                z: (pos.z + oz) as i32,
            };
            let w = IVec3 {
                x: (pos.x * 32 + nx) as i32,
                y: (pos.y * 32 + ny) as i32,
                z: (pos.z * 32 + nz) as i32,
            };
            block_at_world_spec(m, w) == (if m.contains_key(owner) {
                m[owner][crate::chunk::flat_index_spec(nx - 32 * ox, ny - 32 * oy, nz - 32 * oz)]
            } else {
                0u8
            })
        }),
{
    let ox: int = if nx < 0 { -1 } else if nx >= 32 { 1 } else { 0 };
    let oy: int = if ny < 0 { -1 } else if ny >= 32 { 1 } else { 0 };
    let oz: int = if nz < 0 { -1 } else if nz >= 32 { 1 } else { 0 };
    lemma_fundamental_div_mod_converse(pos.x * 32 + nx, 32, pos.x + ox, nx - 32 * ox);
    lemma_fundamental_div_mod_converse(pos.y * 32 + ny, 32, pos.y + oy, ny - 32 * oy);
    lemma_fundamental_div_mod_converse(pos.z * 32 + nz, 32, pos.z + oz, nz - 32 * oz);
    let owner = IVec3 {
        x: (pos.x + ox) as i32,
        y: (pos.y + oy) as i32,
        z: (pos.z + oz) as i32,
    };
    let w = IVec3 {
        x: (pos.x * 32 + nx) as i32,
        y: (pos.y * 32 + ny) as i32,
        z: (pos.z * 32 + nz) as i32,
    };
    assert(w.x as int == pos.x * 32 + nx);
    assert(w.y as int == pos.y * 32 + ny);
    assert(w.z as int == pos.z * 32 + nz);
    assert(crate::store::world_chunk_spec(w) == owner);
}

/// The quads of directions below `dir` when none of them is visible: none.
proof fn lemma_faces_upto_empty(m: Map<IVec3, Seq<u8>>, pos: IVec3, i: int, dir: int)
    requires
        0 <= dir <= 6,
        forall|d: int| 0 <= d < dir ==> !face_visible_spec(m, pos, i, d),
    ensures
        faces_upto_spec(m, pos, i, dir).len() == 0,
    decreases dir,
{
    if dir > 0 {
        lemma_faces_upto_empty(m, pos, i, dir - 1);
    }
}

/// The quads of directions below `dir` when all of them are visible:
/// four vertices per direction.
proof fn lemma_faces_upto_full(m: Map<IVec3, Seq<u8>>, pos: IVec3, i: int, dir: int)
    requires
        0 <= dir <= 6,
        forall|d: int| 0 <= d < dir ==> face_visible_spec(m, pos, i, d),
    ensures
        faces_upto_spec(m, pos, i, dir).len() == 4 * dir,
    decreases dir,
{
    if dir > 0 {
        lemma_faces_upto_full(m, pos, i, dir - 1);
    }
}

/// A mesh prefix over blocks that each contribute nothing is empty.
proof fn lemma_mesh_upto_empty(m: Map<IVec3, Seq<u8>>, pos: IVec3, i: int)
    requires
        0 <= i <= 32768,
        forall|j: int| 0 <= j < i ==> block_faces_spec(m, pos, j).len() == 0,
    ensures
        mesh_upto_spec(m, pos, i).len() == 0,
    decreases i,
{
    if i > 0 {
        lemma_mesh_upto_empty(m, pos, i - 1);
    }
}

/// A mesh prefix over blocks of which exactly one contributes, with 24
/// vertices, has exactly those 24 vertices.
proof fn lemma_mesh_upto_single(m: Map<IVec3, Seq<u8>>, pos: IVec3, i: int, k: int)
    requires
        0 <= i <= 32768,
        0 <= k < 32768,
        block_faces_spec(m, pos, k).len() == 24,
        forall|j: int| 0 <= j < 32768 && j != k ==> block_faces_spec(m, pos, j).len() == 0,
    ensures
        mesh_upto_spec(m, pos, i).len() == (if k < i {
            24int
        } else {
            0int
        }),
    decreases i,
{
    if i > 0 {
        lemma_mesh_upto_single(m, pos, i - 1, k);
    }
}

/// Face culling leaves nothing of a buried chunk: a chunk that is
/// entirely solid, with all six neighbor chunks loaded and entirely
/// solid, meshes to zero faces.
pub proof fn lemma_enclosed_chunk_meshes_empty(m: Map<IVec3, Seq<u8>>, pos: IVec3)
    requires
        chunk_pos_bounded(pos),
        all_solid_spec(m, pos),
        forall|dir: int| 0 <= dir < 6 ==> all_solid_spec(m, chunk_neighbor_spec(pos, dir)),
    ensures
        mesh_spec(m, pos).len() == 0,
{
    assert forall|i: int, dir: int|
        0 <= i < 32768 && 0 <= dir < 6 implies !face_visible_spec(m, pos, i, dir) by {
        lemma_unflatten_flatten(i);
        let d = dir_vec_spec(dir);
        let nx = unflatten_x_spec(i) + d.0;
        let ny = unflatten_y_spec(i) + d.1;
        let nz = unflatten_z_spec(i) + d.2;
        lemma_offset_lookup(m, pos, nx, ny, nz);
        let ox: int = if nx < 0 { -1 } else if nx >= 32 { 1 } else { 0 };
        let oy: int = if ny < 0 { -1 } else if ny >= 32 { 1 } else { 0 };
        let oz: int = if nz < 0 { -1 } else if nz >= 32 { 1 } else { 0 };
        let owner = IVec3 {
            x: (pos.x + ox) as i32,
            y: (pos.y + oy) as i32,
            z: (pos.z + oz) as i32,
        };
        if ox == 0 && oy == 0 && oz == 0 {
            assert(all_solid_spec(m, pos));
            assert(m[owner] == m[pos]);
            assert(0 <= crate::chunk::flat_index_spec(nx, ny, nz) < 32768) by {
                crate::chunk::lemma_flat_unflatten(nx, ny, nz);
            };
        } else {
            assert(owner == chunk_neighbor_spec(pos, dir));
            assert(all_solid_spec(m, owner));
            assert(0 <= crate::chunk::flat_index_spec(nx - 32 * ox, ny - 32 * oy, nz - 32 * oz)
                < 32768) by {
                crate::chunk::lemma_flat_unflatten(nx - 32 * ox, ny - 32 * oy, nz - 32 * oz);
            };
        }
    };
    assert forall|j: int| 0 <= j < 32768 implies block_faces_spec(m, pos, j).len() == 0 by {
        lemma_faces_upto_empty(m, pos, j, 6);
    };
    lemma_mesh_upto_empty(m, pos, 32768);
}

/// A lone solid block in an otherwise empty, unenclosed chunk shows all
/// of itself: exactly six faces, so 24 packed vertices.
pub proof fn lemma_single_block_meshes_six_faces(m: Map<IVec3, Seq<u8>>, pos: IVec3, k: int)
    requires
        chunk_pos_bounded(pos),
        m.contains_key(pos),
        m[pos].len() == 32768,
        0 <= k < 32768,
        m[pos][k] != 0,
        forall|i: int| 0 <= i < 32768 && i != k ==> m[pos][i] == 0,
        forall|dir: int| 0 <= dir < 6 ==> all_air_or_absent_spec(m, chunk_neighbor_spec(pos, dir)),
    ensures
        mesh_spec(m, pos).len() == 24,
{
    lemma_unflatten_flatten(k);
    assert forall|dir: int| 0 <= dir < 6 implies face_visible_spec(m, pos, k, dir) by {
        let d = dir_vec_spec(dir);
        let nx = unflatten_x_spec(k) + d.0;
        let ny = unflatten_y_spec(k) + d.1;
        let nz = unflatten_z_spec(k) + d.2;
        lemma_offset_lookup(m, pos, nx, ny, nz);
        let ox: int = if nx < 0 { -1 } else if nx >= 32 { 1 } else { 0 };
        let oy: int = if ny < 0 { -1 } else if ny >= 32 { 1 } else { 0 };
        let oz: int = if nz < 0 { -1 } else if nz >= 32 { 1 } else { 0 };
        let owner = IVec3 {
            x: (pos.x + ox) as i32,
            y: (pos.y + oy) as i32,
            z: (pos.z + oz) as i32,
        };
        if ox == 0 && oy == 0 && oz == 0 {
            assert(m[owner] == m[pos]);
            let f = crate::chunk::flat_index_spec(nx, ny, nz);
            crate::chunk::lemma_flat_unflatten(nx, ny, nz);
            assert(f != k) by {
                if f == k {
                    assert(unflatten_x_spec(f) == nx && unflatten_y_spec(f) == ny
                        && unflatten_z_spec(f) == nz);
                    assert(d.0 == 0 && d.1 == 0 && d.2 == 0);
                }
            };
            assert(m[pos][f] == 0);
        } else {
            assert(owner == chunk_neighbor_spec(pos, dir));
            assert(all_air_or_absent_spec(m, owner));
            if m.contains_key(owner) {
                crate::chunk::lemma_flat_unflatten(nx - 32 * ox, ny - 32 * oy, nz - 32 * oz);
            }
        }
    };
    lemma_faces_upto_full(m, pos, k, 6);
    assert(block_faces_spec(m, pos, k).len() == 24);
    assert forall|j: int| 0 <= j < 32768 && j != k implies block_faces_spec(m, pos, j).len()
        == 0 by {
        assert(m[pos][j] == 0);
    };
    lemma_mesh_upto_single(m, pos, 32768, k);
}

} // verus!
