use noise::NoiseFn;
use opencuboids::coords::{ivec3, IVec3};
use opencuboids::worldgen::{gen_chunk, STONE_BLOCK, WORLD_SEED};

/// Samples the height thresholds of a chunk's footprint the way the
/// application shell does: one seeded Perlin sample per world column.
fn sample_heights(pos: IVec3) -> Vec<i32> {
    let perlin = noise::Perlin::new(WORLD_SEED);
    let mut heights = Vec::with_capacity(1024);
    for lx in 0..32 {
        for lz in 0..32 {
            let wx = pos.x * 32 + lx;
            let wz = pos.z * 32 + lz;
            let sample = perlin.get([wx as f64 / 32.0, wz as f64 / 32.0]);
            heights.push((sample * 16.0) as i32);
        }
    }
    heights
}

#[test]
fn generation_is_deterministic() {
    let pos = ivec3(2, 0, -3);
    let a = gen_chunk(pos, &sample_heights(pos));
    let b = gen_chunk(pos, &sample_heights(pos));
    assert_eq!(a.blocks, b.blocks);
    assert_eq!(a.pos, b.pos);
}

#[test]
fn generation_follows_the_height_field() {
    let heights = vec![5i32; 1024];
    let chunk = gen_chunk(ivec3(0, 0, 0), &heights);
    assert_eq!(chunk.get_block(0, 0, 0), STONE_BLOCK);
    assert_eq!(chunk.get_block(12, 4, 30), STONE_BLOCK);
    assert_eq!(chunk.get_block(12, 5, 30), 0);
    assert_eq!(chunk.get_block(0, 31, 0), 0);
}

#[test]
fn varied_heights_cut_a_profile() {
    let mut heights = vec![0i32; 1024];
    heights[0] = 32; // column (0, 0) fully solid
    let chunk = gen_chunk(ivec3(0, 0, 0), &heights);
    for y in 0..32 {
        assert_eq!(chunk.get_block(0, y, 0), STONE_BLOCK);
    }
    assert_eq!(chunk.get_block(1, 0, 0), 0);
}

#[test]
fn negative_chunks_fill_solid_below_the_noise_floor() {
    // Perlin samples stay within [-1, 1], so thresholds stay in [-16, 16]:
    // a chunk spanning world y in [-64, -33) is entirely below them.
    let pos = ivec3(0, -2, 0);
    let chunk = gen_chunk(pos, &sample_heights(pos));
    assert!(chunk.blocks.iter().all(|&b| b == STONE_BLOCK));
}

#[test]
fn high_chunks_stay_air_above_the_noise_ceiling() {
    let pos = ivec3(0, 2, 0);
    let chunk = gen_chunk(pos, &sample_heights(pos));
    assert!(chunk.blocks.iter().all(|&b| b == 0));
}
