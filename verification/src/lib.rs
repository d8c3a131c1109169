pub mod chunk;
pub mod codec;
pub mod coordinator;
pub mod coords;
pub mod mesh;
pub mod net;
pub mod protocol;
pub mod ranges;
pub mod server;
pub mod store;
pub mod worldgen;

use vstd::prelude::*;

verus! {

/// Side length of a cubic chunk, in blocks.
pub const CHUNK_SIZE: usize = 32;

/// Number of blocks in one chunk.
pub const CHUNK_VOLUME: usize = 32768;

/// Well-known TCP port the server listens on by default.
pub const DEFAULT_PORT: u16 = 29707;

/// Max-norm radius, in chunks, of the box kept loaded around the viewer.
pub const RENDER_DISTANCE: i32 = 5;

} // verus!
