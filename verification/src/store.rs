use vstd::prelude::*;
use std::collections::VecDeque;
use crate::chunk::{flat_index_spec, Chunk};
use crate::coords::{
    chunk_coord_spec,
    local_coord_spec,
    world_to_chunk,
    world_to_local,
    IVec3,
};

verus! {

/// The mapping a sequence of chunks with pairwise-distinct coordinates
/// stands for: coordinate to block array.
pub open spec fn map_of_seq(s: Seq<Chunk>) -> Map<IVec3, Seq<u8>>
    decreases s.len(),
{
    if s.len() == 0 {
        Map::empty()
    } else {
        map_of_seq(s.drop_last()).insert(s.last().pos, s.last().blocks@)
    }
}

/// Whether some chunk of the sequence sits at coordinate `p`.
pub open spec fn seq_has_pos(s: Seq<Chunk>, p: IVec3) -> bool {
    exists|k: int| 0 <= k < s.len() && (#[trigger] s[k]).pos == p
}

/// Chunks with pairwise-distinct coordinates.
pub open spec fn positions_unique(s: Seq<Chunk>) -> bool {
    forall|k1: int, k2: int|
        0 <= k1 < k2 < s.len() ==> (#[trigger] s[k1]).pos != (#[trigger] s[k2]).pos
}

/// The mapping's domain is exactly the coordinates present in the sequence.
pub proof fn lemma_map_of_seq_dom(s: Seq<Chunk>, p: IVec3)
    ensures
        map_of_seq(s).contains_key(p) <==> seq_has_pos(s, p),
    decreases s.len(),
{
    if s.len() > 0 {
        lemma_map_of_seq_dom(s.drop_last(), p);
        if s.last().pos == p {
            assert(s[s.len() - 1].pos == p);
        } else {
            if seq_has_pos(s, p) {
                let k = choose|k: int| 0 <= k < s.len() && (#[trigger] s[k]).pos == p;
                assert(k < s.len() - 1);
                assert(s.drop_last()[k].pos == p);
            }
            if seq_has_pos(s.drop_last(), p) {
                let k = choose|k: int|
                    0 <= k < s.drop_last().len() && (#[trigger] s.drop_last()[k]).pos == p;
                assert(s[k].pos == p);
            }
        }
    }
}

/// Under uniqueness, each chunk of the sequence is what the mapping holds
/// at its coordinate.
pub proof fn lemma_map_of_seq_get(s: Seq<Chunk>, k: int)
    requires
        positions_unique(s),
        0 <= k < s.len(),
    ensures
        map_of_seq(s).contains_key(s[k].pos),
        map_of_seq(s)[s[k].pos] == s[k].blocks@,
    decreases s.len(),
{
    if k == s.len() - 1 {
    } else {
        assert(s[k].pos != s[s.len() - 1].pos);
        assert(s.drop_last()[k] == s[k]);
        lemma_map_of_seq_get(s.drop_last(), k);
    }
}

/// Overwriting the chunk that already holds a coordinate updates the
/// mapping at that coordinate alone.
proof fn lemma_map_of_seq_update(s: Seq<Chunk>, i: int, c: Chunk)
    requires
        positions_unique(s),
        0 <= i < s.len(),
        s[i].pos == c.pos,
    ensures
        map_of_seq(s.update(i, c)) =~= map_of_seq(s).insert(c.pos, c.blocks@),
    decreases s.len(),
{
    let t = s.update(i, c);
    if i == s.len() - 1 {
        assert(t.drop_last() =~= s.drop_last());
        assert(t.last() == c);
    } else {
        assert(t.last() == s.last());
        assert(t.drop_last() =~= s.drop_last().update(i, c));
        assert(s.drop_last()[i] == s[i]);
        lemma_map_of_seq_update(s.drop_last(), i, c);
        assert(s[i].pos != s[s.len() - 1].pos);
    }
}

/// Client-side chunk state: the loaded chunks, the queue of coordinates
/// awaiting mesh generation, the number of outstanding network responses,
/// the chunk the viewer was last seen in, and the coordinates that
/// currently have a mesh.
pub struct ChunkManager {
    pub chunk_map: Vec<Chunk>,
    pub chunk_update_queue: VecDeque<IVec3>,
    pub chunks_left_loading: u32,
    pub chunk_pos_center: Option<IVec3>,
    pub meshed: Vec<IVec3>,
}

/// Chunk-grid coordinate of the chunk owning a world-space block position.
pub open spec fn world_chunk_spec(p: IVec3) -> IVec3 {
    IVec3 {
        x: chunk_coord_spec(p.x as int) as i32,
        y: chunk_coord_spec(p.y as int) as i32,
        z: chunk_coord_spec(p.z as int) as i32,
    }
}

/// What a mapping of loaded chunks says about a world-space block
/// position: the stored block when the owning chunk is loaded, air when it
/// is not.
pub open spec fn block_at_world_spec(m: Map<IVec3, Seq<u8>>, p: IVec3) -> u8 {
    let cp = world_chunk_spec(p);
    if m.contains_key(cp) {
        m[cp][flat_index_spec(
            local_coord_spec(p.x as int),
            local_coord_spec(p.y as int),
            local_coord_spec(p.z as int),
        )]
    } else {
        0u8
    }
}

impl ChunkManager {
    /// Loaded chunks are well formed and keyed by pairwise-distinct
    /// coordinates; the meshed coordinates are pairwise distinct; queued
    /// coordinates stay inside the addressable chunk grid.
    pub open spec fn wf(self) -> bool {
        &&& positions_unique(self.chunk_map@)
        &&& forall|k: int| 0 <= k < self.chunk_map@.len() ==> (#[trigger] self.chunk_map@[k]).wf()
        &&& forall|k1: int, k2: int|
            0 <= k1 < k2 < self.meshed@.len() ==> self.meshed@[k1] != self.meshed@[k2]
        &&& forall|k: int|
            0 <= k < self.chunk_update_queue@.len() ==> crate::coords::chunk_pos_bounded(
                #[trigger] self.chunk_update_queue@[k],
            )
    }

    /// The mapping from chunk coordinate to block array this store holds.
    pub open spec fn map_spec(self) -> Map<IVec3, Seq<u8>> {
        map_of_seq(self.chunk_map@)
    }

    /// An empty store with no center and nothing outstanding.
    pub fn new() -> (r: ChunkManager)
        ensures
            r.wf(),
            r.map_spec() =~= Map::empty(),
            r.chunk_update_queue@ == Seq::<IVec3>::empty(),
            r.chunks_left_loading == 0,
            r.chunk_pos_center is None,
            r.meshed@ == Seq::<IVec3>::empty(),
    {
        ChunkManager {
            chunk_map: Vec::new(),
            chunk_update_queue: VecDeque::new(),
            chunks_left_loading: 0,
            chunk_pos_center: None,
            meshed: Vec::new(),
        }
    }

    /// Looks up the loaded chunk at a chunk coordinate.
    pub fn get(&self, pos: IVec3) -> (r: Option<&Chunk>)
        requires
            self.wf(),
        ensures
            r is Some <==> self.map_spec().contains_key(pos),
            r matches Some(c) ==> c.pos == pos && c.wf() && c.blocks@ == self.map_spec()[pos],
    {
        let mut k: usize = 0;
        while k < self.chunk_map.len()
            invariant
                self.wf(),
                k <= self.chunk_map@.len(),
                forall|j: int| 0 <= j < k as int ==> (#[trigger] self.chunk_map@[j]).pos != pos,
            decreases self.chunk_map@.len() - k,
        {
            if self.chunk_map[k].pos == pos {
                proof {
                    lemma_map_of_seq_get(self.chunk_map@, k as int);
                }
                return Some(&self.chunk_map[k]);
            }
            k = k + 1;
        }
        proof {
            lemma_map_of_seq_dom(self.chunk_map@, pos);
        }
        None
    }

    /// Inserts a chunk under its own coordinate, overwriting any chunk
    /// already loaded there. Nothing else changes.
    pub fn insert(&mut self, chunk: Chunk)
        requires
            old(self).wf(),
            chunk.wf(),
        ensures
            final(self).wf(),
            final(self).map_spec() =~= old(self).map_spec().insert(chunk.pos, chunk.blocks@),
            final(self).chunk_update_queue == old(self).chunk_update_queue,
            final(self).chunks_left_loading == old(self).chunks_left_loading,
            final(self).chunk_pos_center == old(self).chunk_pos_center,
            final(self).meshed == old(self).meshed,
    {
        let ghost s0 = self.chunk_map@;
        let mut k: usize = 0;
        while k < self.chunk_map.len()
            invariant
                *self == *old(self),
                s0 == self.chunk_map@,
                old(self).wf(),
                chunk.wf(),
                k <= s0.len(),
                forall|j: int| 0 <= j < k as int ==> (#[trigger] s0[j]).pos != chunk.pos,
            decreases s0.len() - k,
        {
            if self.chunk_map[k].pos == chunk.pos {
                proof {
                    lemma_map_of_seq_update(s0, k as int, chunk);
                    assert(positions_unique(s0.update(k as int, chunk))) by {
                        assert forall|k1: int, k2: int|
                            0 <= k1 < k2 < s0.len() implies (#[trigger] s0.update(
                            k as int,
                            chunk,
                        )[k1]).pos != (#[trigger] s0.update(k as int, chunk)[k2]).pos by {
                            assert(s0[k1].pos != s0[k2].pos);
                        };
                    };
                }
                self.chunk_map.set(k, chunk);
                return ;
            }
            k = k + 1;
        }
        proof {
            lemma_map_of_seq_dom(s0, chunk.pos);
            assert(s0.push(chunk).drop_last() =~= s0);
            assert(s0.push(chunk).last() == chunk);
        }
        self.chunk_map.push(chunk);
    }

    /// Reads the block at a world-space position, answering air for any
    /// position whose chunk is not loaded rather than failing: missing
    /// neighbors must not break the meshing path.
    pub fn get_block(&self, pos: IVec3) -> (r: u8)
        requires
            self.wf(),
        ensures
            r == block_at_world_spec(self.map_spec(), pos),
    {
        let cp = IVec3 {
            x: world_to_chunk(pos.x),
            y: world_to_chunk(pos.y),
            z: world_to_chunk(pos.z),
        };
        proof {
            assert(cp == world_chunk_spec(pos));
        }
        match self.get(cp) {
            None => 0,
            Some(chunk) => {
                let lx = world_to_local(pos.x);
                let ly = world_to_local(pos.y);
                let lz = world_to_local(pos.z);
                chunk.get_block(lx, ly, lz)
            },
        }
    }

    /// Ingests one network response: the chunk is stored under its
    /// coordinate and one fewer response is outstanding.
    pub fn handle_chunk_response(&mut self, chunk: Chunk)
        requires
            old(self).wf(),
            chunk.wf(),
            old(self).chunks_left_loading > 0,
        ensures
            final(self).wf(),
            final(self).map_spec() =~= old(self).map_spec().insert(chunk.pos, chunk.blocks@),
            final(self).chunks_left_loading == old(self).chunks_left_loading - 1,
            final(self).chunk_update_queue == old(self).chunk_update_queue,
            final(self).chunk_pos_center == old(self).chunk_pos_center,
            final(self).meshed == old(self).meshed,
    {
        self.insert(chunk);
        self.chunks_left_loading = self.chunks_left_loading - 1;
    }

    /// Drops every loaded chunk outside the open box of radius `distance`
    /// around `center`; chunks inside it are untouched.
    pub fn evict_outside(&mut self, center: IVec3, distance: i32)
        requires
            old(self).wf(),
        ensures
            final(self).wf(),
            forall|p: IVec3|
                #[trigger] final(self).map_spec().contains_key(p)
                    ==> old(self).map_spec().contains_key(p)
                    && crate::coords::in_bounds_spec(p, center, distance as int),
            forall|p: IVec3|
                #[trigger] old(self).map_spec().contains_key(p)
                    && crate::coords::in_bounds_spec(p, center, distance as int)
                    ==> final(self).map_spec().contains_key(p),
            forall|p: IVec3|
                final(self).map_spec().contains_key(p)
                    ==> final(self).map_spec()[p] == old(self).map_spec()[p],
            final(self).chunk_update_queue == old(self).chunk_update_queue,
            final(self).chunks_left_loading == old(self).chunks_left_loading,
            final(self).chunk_pos_center == old(self).chunk_pos_center,
            final(self).meshed == old(self).meshed,
    {
        let ghost s0 = self.chunk_map@;
        let ghost n0 = s0.len() as int;
        let mut kept: Vec<Chunk> = Vec::new();
        proof {
            assert(self.chunk_map@ =~= s0.take(s0.len() as int));
        }
        while self.chunk_map.len() > 0
            invariant
                self.chunk_update_queue == old(self).chunk_update_queue,
                self.chunks_left_loading == old(self).chunks_left_loading,
                self.chunk_pos_center == old(self).chunk_pos_center,
                self.meshed == old(self).meshed,
                s0 == old(self).chunk_map@,
                n0 == s0.len(),
                positions_unique(s0),
                forall|k: int| 0 <= k < n0 ==> (#[trigger] s0[k]).wf(),
                self.chunk_map@.len() <= n0,
                self.chunk_map@ == s0.take(self.chunk_map@.len() as int),
                forall|idx: int|
                    0 <= idx < kept@.len() ==> exists|j: int|
                        self.chunk_map@.len() <= j < n0 && #[trigger] kept@[idx] == s0[j]
                            && crate::coords::in_bounds_spec(s0[j].pos, center, distance as int),
                forall|j: int|
                    self.chunk_map@.len() <= j < n0 && crate::coords::in_bounds_spec(
                        (#[trigger] s0[j]).pos,
                        center,
                        distance as int,
                    ) ==> seq_has_pos(kept@, s0[j].pos),
                positions_unique(kept@),
            decreases self.chunk_map@.len(),
        {
            let ghost before = self.chunk_map@;
            let copt = self.chunk_map.pop();
            let c = match copt {
                Some(c) => c,
                None => vstd::pervasive::unreached(),
            };
            let ghost j = self.chunk_map@.len() as int;
            let ghost kept0 = kept@;
            proof {
                assert(before == s0.take(j + 1));
                assert(c == before[j]);
                assert(before[j] == s0[j]);
                assert(self.chunk_map@ =~= s0.take(j));
            }
            let keep = crate::coords::in_bounds(c.pos, center, distance);
            if keep {
                proof {
                    assert forall|idx: int| 0 <= idx < kept@.len() implies (
                    #[trigger] kept@[idx]).pos != c.pos by {
                        let jj = choose|jj: int|
                            j + 1 <= jj < n0 && #[trigger] kept@[idx] == s0[jj]
                                && crate::coords::in_bounds_spec(
                                s0[jj].pos,
                                center,
                                distance as int,
                            );
                        assert(s0[jj].pos != s0[j].pos);
                    };
                }
                kept.push(c);
            }
            proof {
                assert forall|idx: int| 0 <= idx < kept@.len() implies exists|jj: int|
                    j <= jj < n0 && #[trigger] kept@[idx] == s0[jj]
                        && crate::coords::in_bounds_spec(s0[jj].pos, center, distance as int) by {
                    if idx < kept0.len() {
                        assert(kept@[idx] == kept0[idx]);
                        let jj = choose|jj: int|
                            j + 1 <= jj < n0 && #[trigger] kept0[idx] == s0[jj]
                                && crate::coords::in_bounds_spec(
                                s0[jj].pos,
                                center,
                                distance as int,
                            );
                        assert(j <= jj < n0 && kept@[idx] == s0[jj]
                            && crate::coords::in_bounds_spec(s0[jj].pos, center, distance as int));
                    } else {
                        assert(keep);
                        assert(kept@[idx] == c);
                        assert(j <= j < n0 && kept@[idx] == s0[j]
                            && crate::coords::in_bounds_spec(s0[j].pos, center, distance as int));
                    }
                };
                assert forall|jj: int|
                    j <= jj < n0 && crate::coords::in_bounds_spec(
                        (#[trigger] s0[jj]).pos,
                        center,
                        distance as int,
                    ) implies seq_has_pos(kept@, s0[jj].pos) by {
                    if jj == j {
                        assert(keep);
                        assert(kept@[kept@.len() - 1] == c);
                        assert(seq_has_pos(kept@, s0[j].pos));
                    } else {
                        assert(seq_has_pos(kept0, s0[jj].pos));
                        let idx = choose|idx: int|
                            0 <= idx < kept0.len() && (#[trigger] kept0[idx]).pos == s0[jj].pos;
                        assert(kept@[idx].pos == s0[jj].pos);
                        assert(seq_has_pos(kept@, s0[jj].pos));
                    }
                };
            }
        }
        let ghost skept = kept@;
        self.chunk_map = kept;
        proof {
            assert(self.chunk_map@ == skept);
            assert forall|p: IVec3| seq_has_pos(skept, p) implies (seq_has_pos(s0, p)
                && crate::coords::in_bounds_spec(p, center, distance as int)) by {
                let idx = choose|idx: int|
                    0 <= idx < skept.len() && (#[trigger] skept[idx]).pos == p;
                let j = choose|j: int|
                    0 <= j < n0 && #[trigger] skept[idx] == s0[j]
                        && crate::coords::in_bounds_spec(s0[j].pos, center, distance as int);
                assert((#[trigger] s0[j]).pos == p);
            };
            assert forall|p: IVec3|
                seq_has_pos(s0, p) && crate::coords::in_bounds_spec(
                    p,
                    center,
                    distance as int,
                ) implies seq_has_pos(skept, p) by {
                let j = choose|j: int| 0 <= j < n0 && (#[trigger] s0[j]).pos == p;
                assert(seq_has_pos(skept, s0[j].pos));
            };
            assert forall|p: IVec3|
                #[trigger] self.map_spec().contains_key(p) implies (old(self)
                .map_spec().contains_key(p) && crate::coords::in_bounds_spec(
                p,
                center,
                distance as int,
            )) by {
                lemma_map_of_seq_dom(skept, p);
                lemma_map_of_seq_dom(s0, p);
            };
            assert forall|p: IVec3|
                #[trigger] old(self).map_spec().contains_key(p)
                    && crate::coords::in_bounds_spec(p, center, distance as int) implies self
                .map_spec().contains_key(p) by {
                lemma_map_of_seq_dom(skept, p);
                lemma_map_of_seq_dom(s0, p);
            };
            assert forall|p: IVec3| self.map_spec().contains_key(p) implies self.map_spec()[p]
                == old(self).map_spec()[p] by {
                lemma_map_of_seq_dom(skept, p);
                let idx = choose|idx: int|
                    0 <= idx < skept.len() && (#[trigger] skept[idx]).pos == p;
                lemma_map_of_seq_get(skept, idx);
                let j = choose|j: int|
                    0 <= j < n0 && #[trigger] skept[idx] == s0[j]
                        && crate::coords::in_bounds_spec(s0[j].pos, center, distance as int);
                lemma_map_of_seq_get(s0, j);
                assert(map_of_seq(skept)[p] == skept[idx].blocks@);
                assert(map_of_seq(s0)[p] == s0[j].blocks@);
            };
        }
    }
}


impl Default for ChunkManager {
    /// The same empty store `new` builds.
    fn default() -> (r: ChunkManager)
        ensures
            r.wf(),
            r.map_spec() =~= Map::<IVec3, Seq<u8>>::empty(),
            r.chunk_update_queue@ == Seq::<IVec3>::empty(),
            r.chunks_left_loading == 0,
            r.chunk_pos_center is None,
            r.meshed@ == Seq::<IVec3>::empty(),
    {
        ChunkManager::new()
    }
}

/// Storing a chunk and then looking its coordinate up hands back exactly
/// that chunk: after `insert`, the store's mapping binds the chunk's own
/// coordinate to its blocks, so `get` on that coordinate succeeds and —
/// by its contract — returns a chunk sitting at the queried coordinate
/// with the inserted blocks.
pub proof fn lemma_insert_then_get(m: Map<IVec3, Seq<u8>>, pos: IVec3, blocks: Seq<u8>)
    ensures
        m.insert(pos, blocks).contains_key(pos),
        m.insert(pos, blocks)[pos] == blocks,
{
}

/// Chunk-grid coordinate of the chunk owning a world-space position, on
/// all three axes at once.
pub fn world_to_chunk_pos(p: IVec3) -> (r: IVec3)
    ensures
        r == world_chunk_spec(p),
{
    IVec3 { x: world_to_chunk(p.x), y: world_to_chunk(p.y), z: world_to_chunk(p.z) }
}

} // verus!
