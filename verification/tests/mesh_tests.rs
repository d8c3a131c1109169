use opencuboids::chunk::Chunk;
use opencuboids::coords::ivec3;
use opencuboids::mesh::{pack_vertex, ChunkMesh};
use opencuboids::store::ChunkManager;

fn solid_chunk(x: i32, y: i32, z: i32) -> Chunk {
    let mut c = Chunk::new(ivec3(x, y, z));
    for bx in 0..32 {
        for by in 0..32 {
            for bz in 0..32 {
                c.set_block(bx, by, bz, 1);
            }
        }
    }
    c
}

#[test]
fn enclosed_solid_chunk_yields_no_mesh() {
    let mut mgr = ChunkManager::new();
    mgr.insert(solid_chunk(0, 0, 0));
    for (dx, dy, dz) in [(0, 0, 1), (0, 0, -1), (1, 0, 0), (-1, 0, 0), (0, 1, 0), (0, -1, 0)] {
        mgr.insert(solid_chunk(dx, dy, dz));
    }
    let chunk = mgr.get(ivec3(0, 0, 0)).unwrap();
    assert!(ChunkMesh::new(chunk, &mgr).is_none());
}

#[test]
fn single_block_yields_six_faces() {
    let mut mgr = ChunkManager::new();
    let mut c = Chunk::new(ivec3(0, 0, 0));
    c.set_block(5, 6, 7, 1);
    mgr.insert(c);
    let chunk = mgr.get(ivec3(0, 0, 0)).unwrap();
    let mesh = ChunkMesh::new(chunk, &mgr).expect("a lone block must mesh");
    assert_eq!(mesh.vertices.len(), 24);
    assert_eq!(mesh.chunk_pos, ivec3(0, 0, 0));
}

#[test]
fn empty_chunk_yields_no_mesh() {
    let mut mgr = ChunkManager::new();
    mgr.insert(Chunk::new(ivec3(0, 0, 0)));
    let chunk = mgr.get(ivec3(0, 0, 0)).unwrap();
    assert!(ChunkMesh::new(chunk, &mgr).is_none());
}

#[test]
fn loaded_neighbor_chunk_hides_the_boundary_face() {
    let mut mgr = ChunkManager::new();
    let mut c = Chunk::new(ivec3(0, 0, 0));
    c.set_block(0, 6, 7, 1);
    mgr.insert(c);

    // alone, the block shows all six faces
    let mesh = ChunkMesh::new(mgr.get(ivec3(0, 0, 0)).unwrap(), &mgr).unwrap();
    assert_eq!(mesh.vertices.len(), 24);

    // a solid block just across the west boundary hides the west face
    let mut west = Chunk::new(ivec3(-1, 0, 0));
    west.set_block(31, 6, 7, 1);
    mgr.insert(west);
    let mesh = ChunkMesh::new(mgr.get(ivec3(0, 0, 0)).unwrap(), &mgr).unwrap();
    assert_eq!(mesh.vertices.len(), 20);
}

#[test]
fn two_adjacent_blocks_share_no_inner_faces() {
    let mut mgr = ChunkManager::new();
    let mut c = Chunk::new(ivec3(0, 0, 0));
    c.set_block(10, 10, 10, 1);
    c.set_block(11, 10, 10, 1);
    mgr.insert(c);
    let mesh = ChunkMesh::new(mgr.get(ivec3(0, 0, 0)).unwrap(), &mgr).unwrap();
    // ten visible faces of the two-block bar, four vertices each
    assert_eq!(mesh.vertices.len(), 40);
}

#[test]
fn pack_vertex_packs_disjoint_bit_fields() {
    assert_eq!(pack_vertex(1, 2, 3, 0, 0), 1 + 2 * 64 + 3 * 4096);
    assert_eq!(pack_vertex(0, 0, 0, 3, 5), 3 * 262144 + 5 * 1048576);
    assert_eq!(pack_vertex(32, 32, 32, 3, 5), 32 + 32 * 64 + 32 * 4096 + 3 * 262144 + 5 * 1048576);
}
