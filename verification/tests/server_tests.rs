use opencuboids::coords::ivec3;
use opencuboids::server::respond_to_range;

#[test]
fn inclusive_unit_cube_yields_eight_chunks() {
    let heights: Vec<Vec<i32>> = (0..8).map(|_| vec![3i32; 1024]).collect();
    let chunks = respond_to_range(ivec3(0, 0, 0), ivec3(1, 1, 1), &heights);
    assert_eq!(chunks.len(), 8);
    for chunk in &chunks {
        assert!(0 <= chunk.pos.x && chunk.pos.x <= 1);
        assert!(0 <= chunk.pos.y && chunk.pos.y <= 1);
        assert!(0 <= chunk.pos.z && chunk.pos.z <= 1);
    }
    for i in 0..chunks.len() {
        for j in 0..i {
            assert_ne!(chunks[i].pos, chunks[j].pos);
        }
    }
}

#[test]
fn single_coordinate_range_yields_one_chunk() {
    let heights = vec![vec![1i32; 1024]];
    let chunks = respond_to_range(ivec3(4, -2, 9), ivec3(4, -2, 9), &heights);
    assert_eq!(chunks.len(), 1);
    assert_eq!(chunks[0].pos, ivec3(4, -2, 9));
}

#[test]
fn generated_chunks_carry_their_heights() {
    let heights = vec![vec![2i32; 1024]];
    let chunks = respond_to_range(ivec3(0, 0, 0), ivec3(0, 0, 0), &heights);
    assert_eq!(chunks[0].get_block(0, 0, 0), 1);
    assert_eq!(chunks[0].get_block(0, 1, 0), 1);
    assert_eq!(chunks[0].get_block(0, 2, 0), 0);
}
