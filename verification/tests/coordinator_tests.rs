use opencuboids::chunk::Chunk;
use opencuboids::coords::ivec3;
use opencuboids::protocol::Request;
use opencuboids::store::ChunkManager;

#[test]
fn insert_then_get_returns_the_chunk_at_that_coordinate() {
    let mut mgr = ChunkManager::new();
    let mut c = Chunk::new(ivec3(7, -2, 1));
    c.set_block(0, 0, 0, 4);
    mgr.insert(c);
    let got = mgr.get(ivec3(7, -2, 1)).expect("inserted chunk must be found");
    assert_eq!(got.pos, ivec3(7, -2, 1));
    assert_eq!(got.get_block(0, 0, 0), 4);
    assert!(mgr.get(ivec3(0, 0, 0)).is_none());
}

#[test]
fn insert_overwrites_the_same_coordinate() {
    let mut mgr = ChunkManager::new();
    let mut a = Chunk::new(ivec3(1, 1, 1));
    a.set_block(0, 0, 0, 1);
    mgr.insert(a);
    let mut b = Chunk::new(ivec3(1, 1, 1));
    b.set_block(0, 0, 0, 2);
    mgr.insert(b);
    assert_eq!(mgr.chunk_map.len(), 1);
    assert_eq!(mgr.get(ivec3(1, 1, 1)).unwrap().get_block(0, 0, 0), 2);
}

#[test]
fn get_block_answers_air_for_missing_chunks() {
    let mgr = ChunkManager::new();
    assert_eq!(mgr.get_block(ivec3(5, 5, 5)), 0);
    assert_eq!(mgr.get_block(ivec3(-1, -1, -1)), 0);
}

#[test]
fn get_block_translates_world_positions() {
    let mut mgr = ChunkManager::new();
    let mut c = Chunk::new(ivec3(-1, -1, -1));
    c.set_block(31, 31, 31, 8);
    mgr.insert(c);
    assert_eq!(mgr.get_block(ivec3(-1, -1, -1)), 8);
    assert_eq!(mgr.get_block(ivec3(-2, -1, -1)), 0);
}

#[test]
fn recenter_scenario_evicts_requests_and_holds_fire() {
    let mut mgr = ChunkManager::new();
    mgr.insert(Chunk::new(ivec3(-1, 0, 0)));
    mgr.insert(Chunk::new(ivec3(1, 0, 0)));
    mgr.insert(Chunk::new(ivec3(2, 0, 0)));

    // viewer arrives in chunk (1, 0, 0) with render distance 2
    let req = mgr.chunk_update(ivec3(1, 0, 0), 2);

    // exactly the chunks at max-norm distance >= 2 from the new center left
    assert!(mgr.get(ivec3(-1, 0, 0)).is_none());
    assert!(mgr.get(ivec3(1, 0, 0)).is_some());
    assert!(mgr.get(ivec3(2, 0, 0)).is_some());

    // exactly one range request covering the 3x3x3 box, 27 answers expected
    assert_eq!(
        req,
        Some(Request::ChunkRange { start: ivec3(0, -1, -1), end: ivec3(2, 1, 1) })
    );
    assert_eq!(mgr.chunks_left_loading, 27);

    // every coordinate of the box is queued for meshing, near rings first
    assert_eq!(mgr.chunk_update_queue.len(), 27);
    assert_eq!(mgr.chunk_update_queue[0], ivec3(1, 0, 0));

    // moving again while the first request is outstanding issues no second one
    let req2 = mgr.chunk_update(ivec3(0, 0, 0), 2);
    assert_eq!(req2, None);
    assert_eq!(mgr.chunks_left_loading, 27);

    // staying put does nothing at all
    let req3 = mgr.chunk_update(ivec3(0, 0, 0), 2);
    assert_eq!(req3, None);
}

#[test]
fn queue_is_ordered_by_ring_distance() {
    let mut mgr = ChunkManager::new();
    mgr.chunk_update(ivec3(0, 0, 0), 3);
    let center = ivec3(0, 0, 0);
    let mut last_ring = 0;
    for k in 0..mgr.chunk_update_queue.len() {
        let p = mgr.chunk_update_queue[k];
        let ring = (p.x - center.x)
            .abs()
            .max((p.y - center.y).abs())
            .max((p.z - center.z).abs());
        assert!(ring >= last_ring, "rings must not decrease");
        last_ring = ring;
    }
    assert_eq!(mgr.chunk_update_queue.len(), 125);
}

#[test]
fn handle_chunk_response_stores_and_counts_down() {
    let mut mgr = ChunkManager::new();
    mgr.chunk_update(ivec3(0, 0, 0), 2);
    assert_eq!(mgr.chunks_left_loading, 27);
    let mut c = Chunk::new(ivec3(0, 0, 0));
    c.set_block(1, 1, 1, 3);
    mgr.handle_chunk_response(c);
    assert_eq!(mgr.chunks_left_loading, 26);
    assert_eq!(mgr.get(ivec3(0, 0, 0)).unwrap().get_block(1, 1, 1), 3);
}

#[test]
fn mesh_batch_meshes_loaded_chunks_and_skips_missing_ones() {
    let mut mgr = ChunkManager::new();
    let mut c = Chunk::new(ivec3(0, 0, 0));
    c.set_block(1, 1, 1, 1);
    mgr.insert(c);
    mgr.chunk_update_queue.push_back(ivec3(0, 0, 0));
    mgr.chunk_update_queue.push_back(ivec3(9, 9, 9)); // never loaded

    let meshes = mgr.chunk_mesh_gen();
    assert_eq!(meshes.len(), 1);
    assert_eq!(meshes[0].chunk_pos, ivec3(0, 0, 0));
    assert_eq!(meshes[0].vertices.len(), 24);
    assert!(mgr.chunk_update_queue.is_empty());
    assert_eq!(mgr.meshed, vec![ivec3(0, 0, 0)]);
}

#[test]
fn mesh_batch_dequeues_at_most_four() {
    let mut mgr = ChunkManager::new();
    for k in 0..6 {
        mgr.chunk_update_queue.push_back(ivec3(k, 0, 0));
    }
    let meshes = mgr.chunk_mesh_gen();
    assert!(meshes.is_empty()); // nothing loaded, nothing meshed
    assert_eq!(mgr.chunk_update_queue.len(), 2);
    assert_eq!(mgr.chunk_update_queue[0], ivec3(4, 0, 0));
}

#[test]
fn empty_meshes_produce_no_entries() {
    let mut mgr = ChunkManager::new();
    mgr.insert(Chunk::new(ivec3(0, 0, 0))); // all air
    mgr.chunk_update_queue.push_back(ivec3(0, 0, 0));
    let meshes = mgr.chunk_mesh_gen();
    assert!(meshes.is_empty());
    assert!(mgr.meshed.is_empty());
}

#[test]
fn evict_meshes_drops_exactly_the_out_of_range_ones() {
    let mut mgr = ChunkManager::new();
    mgr.chunk_pos_center = Some(ivec3(0, 0, 0));
    mgr.meshed.push(ivec3(0, 0, 0));
    mgr.meshed.push(ivec3(1, 0, 0));
    mgr.meshed.push(ivec3(5, 0, 0));
    let removed = mgr.evict_meshes(2);
    assert_eq!(removed, vec![ivec3(5, 0, 0)]);
    assert!(mgr.meshed.contains(&ivec3(0, 0, 0)));
    assert!(mgr.meshed.contains(&ivec3(1, 0, 0)));
    assert!(!mgr.meshed.contains(&ivec3(5, 0, 0)));
}

#[test]
fn remeshing_after_neighbor_arrives_hides_the_shared_face() {
    // the coordinator's documented policy: a missing neighbor counts as
    // air, and the face reappears as hidden once the neighbor is loaded
    // and the chunk is queued again
    let mut mgr = ChunkManager::new();
    let mut c = Chunk::new(ivec3(0, 0, 0));
    c.set_block(0, 6, 7, 1);
    mgr.insert(c);
    mgr.chunk_update_queue.push_back(ivec3(0, 0, 0));
    let meshes = mgr.chunk_mesh_gen();
    assert_eq!(meshes[0].vertices.len(), 24);

    let mut west = Chunk::new(ivec3(-1, 0, 0));
    west.set_block(31, 6, 7, 1);
    mgr.insert(west);
    mgr.chunk_update_queue.push_back(ivec3(0, 0, 0));
    let meshes = mgr.chunk_mesh_gen();
    assert_eq!(meshes[0].vertices.len(), 20);
}
