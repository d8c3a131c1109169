use opencuboids::chunk::{pos_to_index, Chunk};
use opencuboids::coords::{in_bounds, ivec3, world_to_chunk, world_to_local};
use opencuboids::{CHUNK_SIZE, CHUNK_VOLUME};

#[test]
fn chunk_constants_agree() {
    assert_eq!(CHUNK_SIZE, 32);
    assert_eq!(CHUNK_SIZE * CHUNK_SIZE * CHUNK_SIZE, CHUNK_VOLUME);
    assert_eq!(Chunk::new(ivec3(0, 0, 0)).blocks.len(), CHUNK_VOLUME);
}

#[test]
fn new_chunk_is_all_air_at_its_coordinate() {
    let c = Chunk::new(ivec3(3, -4, 5));
    assert_eq!(c.pos, ivec3(3, -4, 5));
    assert_eq!(c.blocks.len(), 32768);
    assert!(c.blocks.iter().all(|&b| b == 0));
}

#[test]
fn set_then_get_block() {
    let mut c = Chunk::new(ivec3(0, 0, 0));
    c.set_block(1, 2, 3, 9);
    assert_eq!(c.get_block(1, 2, 3), 9);
    assert_eq!(c.get_block(3, 2, 1), 0);
}

#[test]
fn pos_to_index_uses_row_major_layout() {
    assert_eq!(pos_to_index(0, 0, 0), 0);
    assert_eq!(pos_to_index(1, 2, 3), 2 * 1024 + 3 * 32 + 1);
    assert_eq!(pos_to_index(31, 31, 31), 32767);
}

#[test]
fn try_get_block_rejects_out_of_range() {
    let mut c = Chunk::new(ivec3(0, 0, 0));
    c.set_block(0, 0, 0, 7);
    assert_eq!(c.try_get_block(0, 0, 0), Some(7));
    assert_eq!(c.try_get_block(31, 31, 31), Some(0));
    assert_eq!(c.try_get_block(-1, 0, 0), None);
    assert_eq!(c.try_get_block(0, 32, 0), None);
    assert_eq!(c.try_get_block(0, 0, 32), None);
}

#[test]
fn in_bounds_excludes_the_boundary_on_every_axis() {
    let center = ivec3(0, 0, 0);
    let d = 2;
    assert!(in_bounds(ivec3(0, 0, 0), center, d));
    assert!(in_bounds(ivec3(1, 1, 1), center, d));
    assert!(in_bounds(ivec3(-1, -1, -1), center, d));
    assert!(!in_bounds(ivec3(2, 0, 0), center, d));
    assert!(!in_bounds(ivec3(-2, 0, 0), center, d));
    assert!(!in_bounds(ivec3(0, 2, 0), center, d));
    assert!(!in_bounds(ivec3(0, -2, 0), center, d));
    assert!(!in_bounds(ivec3(0, 0, 2), center, d));
    assert!(!in_bounds(ivec3(0, 0, -2), center, d));
}

#[test]
fn in_bounds_is_relative_to_the_center() {
    assert!(in_bounds(ivec3(10, 10, 10), ivec3(10, 10, 10), 1));
    assert!(!in_bounds(ivec3(11, 10, 10), ivec3(10, 10, 10), 1));
    assert!(in_bounds(ivec3(-99, 0, 50), ivec3(-100, 0, 51), 2));
}

#[test]
fn world_to_chunk_floors_toward_negative_infinity() {
    assert_eq!(world_to_chunk(0), 0);
    assert_eq!(world_to_chunk(31), 0);
    assert_eq!(world_to_chunk(32), 1);
    assert_eq!(world_to_chunk(-1), -1);
    assert_eq!(world_to_chunk(-32), -1);
    assert_eq!(world_to_chunk(-33), -2);
}

#[test]
fn world_to_local_wraps_into_the_chunk() {
    assert_eq!(world_to_local(0), 0);
    assert_eq!(world_to_local(31), 31);
    assert_eq!(world_to_local(32), 0);
    assert_eq!(world_to_local(-1), 31);
    assert_eq!(world_to_local(-32), 0);
}
