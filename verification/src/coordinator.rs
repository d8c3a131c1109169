use vstd::prelude::*;
use std::collections::VecDeque;
use crate::coords::{chunk_pos_bounded, in_bounds_spec, IVec3};
use crate::protocol::Request;
use crate::ranges::{box_len_spec, in_box_spec, iter_3d, lemma_box_membership};
use crate::mesh::{mesh_spec, ChunkMesh};
use crate::store::{map_of_seq, ChunkManager};

verus! {

// The streaming coordinator decides, once per frame, which chunks must be
// loaded and meshed as the viewer moves. On a recenter it evicts what
// fell out of range, issues at most one range request (never while an
// earlier one is outstanding), and queues the coordinates inside the new
// range for meshing in ring order, nearest ring first, so near geometry
// is built before far geometry.

/// Absolute value.
pub open spec fn abs_spec(v: int) -> int {
    if v >= 0 {
        v
    } else {
        -v
    }
}

/// Max-norm distance between two chunk coordinates: the largest absolute
/// axis difference.
pub open spec fn cheb_dist_spec(a: IVec3, b: IVec3) -> int {
    let dx = abs_spec(a.x - b.x);
    let dy = abs_spec(a.y - b.y);
    let dz = abs_spec(a.z - b.z);
    if dx >= dy && dx >= dz {
        dx
    } else if dy >= dz {
        dy
    } else {
        dz
    }
}

/// Max-norm distance, computed without overflow.
pub fn cheb_dist(a: IVec3, b: IVec3) -> (r: i64)
    ensures
        r as int == cheb_dist_spec(a, b),
{
    let dx: i64 = a.x as i64 - b.x as i64;
    let dy: i64 = a.y as i64 - b.y as i64;
    let dz: i64 = a.z as i64 - b.z as i64;
    let dx = if dx >= 0 {
        dx
    } else {
        -dx
    };
    let dy = if dy >= 0 {
        dy
    } else {
        -dy
    };
    let dz = if dz >= 0 {
        dz
    } else {
        -dz
    };
    if dx >= dy && dx >= dz {
        dx
    } else if dy >= dz {
        dy
    } else {
        dz
    }
}

/// Whether a coordinate occurs in a vector of coordinates.
pub fn vec_contains(v: &Vec<IVec3>, p: IVec3) -> (r: bool)
    ensures
        r == v@.contains(p),
{
    let mut k: usize = 0;
    while k < v.len()
        invariant
            k <= v@.len(),
            forall|j: int| 0 <= j < k as int ==> v@[j] != p,
        decreases v@.len() - k,
    {
        if v[k] == p {
            return true;
        }
        k = k + 1;
    }
    proof {
        assert(!v@.contains(p));
    }
    false
}

/// Whether a coordinate occurs in the pending queue.
pub fn queue_contains(q: &VecDeque<IVec3>, p: IVec3) -> (r: bool)
    ensures
        r == q@.contains(p),
{
    let mut k: usize = 0;
    while k < q.len()
        invariant
            k <= q@.len(),
            forall|j: int| 0 <= j < k as int ==> q@[j] != p,
        decreases q@.len() - k,
    {
        if q[k] == p {
            return true;
        }
        k = k + 1;
    }
    proof {
        assert(!q@.contains(p));
    }
    false
}

/// Componentwise sum of two coordinates.
pub open spec fn ivec_add_spec(a: IVec3, b: IVec3) -> IVec3 {
    IVec3 { x: (a.x + b.x) as i32, y: (a.y + b.y) as i32, z: (a.z + b.z) as i32 }
}

/// Viewer chunk coordinates the coordinator accepts: far enough from the
/// edge of the addressable chunk grid that the whole render-distance box
/// around them stays addressable.
pub open spec fn viewer_chunk_bounded(p: IVec3) -> bool {
    &&& -0x01FF_FFC0 <= p.x <= 0x01FF_FFC0
    &&& -0x01FF_FFC0 <= p.y <= 0x01FF_FFC0
    &&& -0x01FF_FFC0 <= p.z <= 0x01FF_FFC0
}

/// What one recenter does to the coordinator: the center moves to the
/// viewer, exactly the loaded chunks outside the new range are gone, the
/// pending queue grows by exactly the unmeshed, unqueued coordinates of
/// the new range in nondecreasing ring order, and a request covering the
/// new range goes out only when no earlier one is outstanding.
pub open spec fn recenter_spec(
    pre: ChunkManager,
    post: ChunkManager,
    viewer: IVec3,
    d: int,
    req: Option<Request>,
) -> bool {
    let q0 = pre.chunk_update_queue@;
    let q1 = post.chunk_update_queue@;
    &&& post.chunk_pos_center == Some(viewer)
    &&& post.meshed@ == pre.meshed@
    &&& forall|p: IVec3|
        #[trigger] post.map_spec().contains_key(p) ==> pre.map_spec().contains_key(p)
            && in_bounds_spec(p, viewer, d)
    &&& forall|p: IVec3|
        #[trigger] pre.map_spec().contains_key(p) && in_bounds_spec(p, viewer, d)
            ==> post.map_spec().contains_key(p)
    &&& forall|p: IVec3|
        #[trigger] post.map_spec().contains_key(p) ==> post.map_spec()[p] == pre.map_spec()[p]
    &&& (pre.chunks_left_loading == 0 ==> {
        &&& req == Some(
            Request::ChunkRange {
                start: IVec3 {
                    x: (viewer.x - (d - 1)) as i32,
                    y: (viewer.y - (d - 1)) as i32,
                    z: (viewer.z - (d - 1)) as i32,
                },
                end: IVec3 {
                    x: (viewer.x + (d - 1)) as i32,
                    y: (viewer.y + (d - 1)) as i32,
                    z: (viewer.z + (d - 1)) as i32,
                },
            },
        )
        &&& post.chunks_left_loading == (2 * d - 1) * (2 * d - 1) * (2 * d - 1)
    })
    &&& (pre.chunks_left_loading != 0 ==> req is None && post.chunks_left_loading
        == pre.chunks_left_loading)
    &&& q1.len() >= q0.len()
    &&& q1.take(q0.len() as int) == q0
    &&& forall|k: int|
        q0.len() <= k < q1.len() ==> in_bounds_spec(#[trigger] q1[k], viewer, d)
            && !pre.meshed@.contains(q1[k]) && !q0.contains(q1[k])
    &&& forall|k1: int, k2: int|
        q0.len() <= k1 <= k2 < q1.len() ==> cheb_dist_spec(#[trigger] q1[k1], viewer)
            <= cheb_dist_spec(#[trigger] q1[k2], viewer)
    &&& forall|p: IVec3|
        in_bounds_spec(p, viewer, d) && !pre.meshed@.contains(p) && !q0.contains(p)
            ==> q1.contains(p)
}

impl ChunkManager {
    /// One recenter step of the per-frame tick. When the viewer is still
    /// in the chunk the coordinator is centered on, nothing changes.
    /// Otherwise chunks outside the new range are evicted, the unmeshed
    /// coordinates of the new range are queued for meshing nearest ring
    /// first, and — only if no earlier request is outstanding — one range
    /// request covering the whole new range is returned to be sent, with
    /// the expected response count recorded.
    pub fn chunk_update(&mut self, viewer_chunk: IVec3, distance: i32) -> (req: Option<Request>)
        requires
            old(self).wf(),
            1 <= distance <= 64,
            viewer_chunk_bounded(viewer_chunk),
        ensures
            final(self).wf(),
            old(self).chunk_pos_center == Some(viewer_chunk) ==> *final(self) == *old(self)
                && req is None,
            old(self).chunk_pos_center != Some(viewer_chunk) ==> recenter_spec(
                *old(self),
                *final(self),
                viewer_chunk,
                distance as int,
                req,
            ),
    {
        let same = match self.chunk_pos_center {
            Some(c) => c == viewer_chunk,
            None => false,
        };
        if same {
            return None;
        }
        self.evict_outside(viewer_chunk, distance);
        let ghost msnap0 = self.chunk_map@;
        proof {
            assert(self.map_spec() == map_of_seq(msnap0));
            assert forall|p: IVec3| #[trigger] map_of_seq(msnap0).contains_key(p) implies old(
                self,
            ).map_spec().contains_key(p) && in_bounds_spec(p, viewer_chunk, distance as int) by {
                assert(self.map_spec().contains_key(p));
            };
            assert forall|p: IVec3|
                #[trigger] old(self).map_spec().contains_key(p) && in_bounds_spec(
                    p,
                    viewer_chunk,
                    distance as int,
                ) implies map_of_seq(msnap0).contains_key(p) by {
                assert(self.map_spec().contains_key(p));
            };
            assert forall|p: IVec3| #[trigger] map_of_seq(msnap0).contains_key(p) implies
                map_of_seq(msnap0)[p] == old(self).map_spec()[p] by {
                assert(self.map_spec().contains_key(p));
                assert(self.map_spec()[p] == old(self).map_spec()[p]);
            };
        }
        let req: Option<Request> = if self.chunks_left_loading == 0 {
            let dm1: i32 = distance - 1;
            let start = IVec3 {
                x: viewer_chunk.x - dm1,
                y: viewer_chunk.y - dm1,
                z: viewer_chunk.z - dm1,
            };
            let end = IVec3 {
                x: viewer_chunk.x + dm1,
                y: viewer_chunk.y + dm1,
                z: viewer_chunk.z + dm1,
            };
            let side: u32 = 2 * (distance as u32) - 1;
            proof {
                assert((side as int) * (side as int) <= 16129 && (side as int) * (side as int)
                    * (side as int) <= 2048383) by (nonlinear_arith)
                    requires
                        1 <= side <= 127,
                ;
            }
            self.chunks_left_loading = side * side * side;
            Some(Request::ChunkRange { start, end })
        } else {
            None
        };
        let lo: i32 = -(distance - 1);
        let deltas = iter_3d(lo, distance);
        let ghost q0 = self.chunk_update_queue@;
        let ghost dstart = IVec3 { x: lo, y: lo, z: lo };
        let ghost dend = IVec3 { x: distance, y: distance, z: distance };
        let ghost m0 = self.meshed@;
        let ghost cll = self.chunks_left_loading;
        let ghost ctr = self.chunk_pos_center;
        let mut ring: i32 = 0;
        while ring < distance
            invariant
                0 <= ring <= distance,
                1 <= distance <= 64,
                viewer_chunk_bounded(viewer_chunk),
                self.wf(),
                self.meshed@ == m0,
                self.chunk_map@ == msnap0,
                self.chunks_left_loading == cll,
                self.chunk_pos_center == ctr,
                deltas@.len() == box_len_spec(dstart, dend),
                forall|j: int|
                    0 <= j < deltas@.len() ==> in_box_spec(#[trigger] deltas@[j], dstart, dend),
                forall|j: int|
                    0 <= j < deltas@.len() ==> crate::ranges::matches_coord(
                        #[trigger] deltas@[j],
                        crate::ranges::box_coord_spec(dstart, dend, j),
                    ),
                dstart == (IVec3 { x: lo, y: lo, z: lo }),
                dend == (IVec3 { x: distance, y: distance, z: distance }),
                lo == -(distance - 1),
                self.chunk_update_queue@.len() >= q0.len(),
                self.chunk_update_queue@.take(q0.len() as int) == q0,
                forall|k: int|
                    q0.len() <= k < self.chunk_update_queue@.len() ==> in_bounds_spec(
                        #[trigger] self.chunk_update_queue@[k],
                        viewer_chunk,
                        distance as int,
                    ) && !m0.contains(self.chunk_update_queue@[k]) && !q0.contains(
                        self.chunk_update_queue@[k],
                    ) && cheb_dist_spec(self.chunk_update_queue@[k], viewer_chunk) < ring,
                forall|k1: int, k2: int|
                    q0.len() <= k1 <= k2 < self.chunk_update_queue@.len() ==> cheb_dist_spec(
                        #[trigger] self.chunk_update_queue@[k1],
                        viewer_chunk,
                    ) <= cheb_dist_spec(#[trigger] self.chunk_update_queue@[k2], viewer_chunk),
                forall|p: IVec3|
                    in_bounds_spec(p, viewer_chunk, distance as int) && cheb_dist_spec(
                        p,
                        viewer_chunk,
                    ) < ring && !m0.contains(p) ==> self.chunk_update_queue@.contains(p),
            decreases distance - ring,
        {
            let mut k: usize = 0;
            while k < deltas.len()
                invariant
                    0 <= ring < distance,
                    1 <= distance <= 64,
                    viewer_chunk_bounded(viewer_chunk),
                    self.wf(),
                    self.meshed@ == m0,
                    self.chunk_map@ == msnap0,
                    self.chunks_left_loading == cll,
                    self.chunk_pos_center == ctr,
                    k <= deltas@.len(),
                    deltas@.len() == box_len_spec(dstart, dend),
                    forall|j: int|
                        0 <= j < deltas@.len() ==> in_box_spec(
                            #[trigger] deltas@[j],
                            dstart,
                            dend,
                        ),
                    forall|j: int|
                        0 <= j < deltas@.len() ==> crate::ranges::matches_coord(
                            #[trigger] deltas@[j],
                            crate::ranges::box_coord_spec(dstart, dend, j),
                        ),
                    dstart == (IVec3 { x: lo, y: lo, z: lo }),
                    dend == (IVec3 { x: distance, y: distance, z: distance }),
                    lo == -(distance - 1),
                    self.chunk_update_queue@.len() >= q0.len(),
                    self.chunk_update_queue@.take(q0.len() as int) == q0,
                    forall|kk: int|
                        q0.len() <= kk < self.chunk_update_queue@.len() ==> in_bounds_spec(
                            #[trigger] self.chunk_update_queue@[kk],
                            viewer_chunk,
                            distance as int,
                        ) && !m0.contains(self.chunk_update_queue@[kk]) && !q0.contains(
                            self.chunk_update_queue@[kk],
                        ) && cheb_dist_spec(self.chunk_update_queue@[kk], viewer_chunk) <= ring,
                    forall|k1: int, k2: int|
                        q0.len() <= k1 <= k2 < self.chunk_update_queue@.len() ==> cheb_dist_spec(
                            #[trigger] self.chunk_update_queue@[k1],
                            viewer_chunk,
                        ) <= cheb_dist_spec(#[trigger] self.chunk_update_queue@[k2], viewer_chunk),
                    forall|p: IVec3|
                        in_bounds_spec(p, viewer_chunk, distance as int) && cheb_dist_spec(
                            p,
                            viewer_chunk,
                        ) < ring && !m0.contains(p) ==> self.chunk_update_queue@.contains(p),
                    forall|j: int|
                        0 <= j < k as int && cheb_dist_spec(
                            ivec_add_spec(viewer_chunk, #[trigger] deltas@[j]),
                            viewer_chunk,
                        ) == ring && !m0.contains(ivec_add_spec(viewer_chunk, deltas@[j]))
                            ==> self.chunk_update_queue@.contains(
                            ivec_add_spec(viewer_chunk, deltas@[j]),
                        ),
                decreases deltas@.len() - k,
            {
                let dlt = deltas[k];
                proof {
                    assert(in_box_spec(dlt, dstart, dend));
                }
                let p = IVec3 {
                    x: viewer_chunk.x + dlt.x,
                    y: viewer_chunk.y + dlt.y,
                    z: viewer_chunk.z + dlt.z,
                };
                proof {
                    assert(p == ivec_add_spec(viewer_chunk, dlt));
                }
                let cd = cheb_dist(p, viewer_chunk);
                if cd == ring as i64 {
                    let in_meshed = vec_contains(&self.meshed, p);
                    let in_queue = queue_contains(&self.chunk_update_queue, p);
                    if !in_meshed && !in_queue {
                        let ghost qbefore = self.chunk_update_queue@;
                        proof {
                            assert(chunk_pos_bounded(p));
                        }
                        self.chunk_update_queue.push_back(p);
                        proof {
                            let q1 = self.chunk_update_queue@;
                            assert(q1 == qbefore.push(p));
                            assert(q1.take(q0.len() as int) =~= qbefore.take(q0.len() as int));
                            assert(in_bounds_spec(p, viewer_chunk, distance as int));
                            assert(!q0.contains(p)) by {
                                if q0.contains(p) {
                                    let w = choose|w: int|
                                        0 <= w < q0.len() && #[trigger] q0[w] == p;
                                    assert(qbefore.take(q0.len() as int)[w] == p);
                                    assert(qbefore[w] == p);
                                    assert(qbefore.contains(p));
                                }
                            };
                            assert forall|q: IVec3| qbefore.contains(q) implies q1.contains(
                                q,
                            ) by {
                                let w = choose|w: int|
                                    0 <= w < qbefore.len() && #[trigger] qbefore[w] == q;
                                assert(q1[w] == q);
                            };
                            assert(q1[q1.len() - 1] == p);
                            assert(q1.contains(p));
                            assert forall|k1: int, k2: int|
                                q0.len() <= k1 <= k2 < q1.len() implies cheb_dist_spec(
                                #[trigger] q1[k1],
                                viewer_chunk,
                            ) <= cheb_dist_spec(#[trigger] q1[k2], viewer_chunk) by {
                                if k2 < q1.len() - 1 {
                                    assert(q1[k1] == qbefore[k1]);
                                    assert(q1[k2] == qbefore[k2]);
                                } else {
                                    assert(q1[k2] == p);
                                    if k1 < q1.len() - 1 {
                                        assert(q1[k1] == qbefore[k1]);
                                        assert(cheb_dist_spec(qbefore[k1], viewer_chunk)
                                            <= ring);
                                    }
                                }
                            };
                        }
                    } else {
                        proof {
                            if !m0.contains(p) {
                                assert(in_queue);
                                assert(self.chunk_update_queue@.contains(p));
                            }
                        }
                    }
                }
                proof {
                    assert forall|j: int|
                        0 <= j < k + 1 && cheb_dist_spec(
                            ivec_add_spec(viewer_chunk, #[trigger] deltas@[j]),
                            viewer_chunk,
                        ) == ring && !m0.contains(ivec_add_spec(viewer_chunk, deltas@[j]))
                            implies self.chunk_update_queue@.contains(
                        ivec_add_spec(viewer_chunk, deltas@[j]),
                    ) by {
                    };
                }
                k = k + 1;
            }
            proof {
                assert forall|p: IVec3|
                    in_bounds_spec(p, viewer_chunk, distance as int) && cheb_dist_spec(
                        p,
                        viewer_chunk,
                    ) < ring + 1 && !m0.contains(p) implies self.chunk_update_queue@.contains(
                    p,
                ) by {
                    if cheb_dist_spec(p, viewer_chunk) == ring {
                        let dlt = IVec3 {
                            x: (p.x - viewer_chunk.x) as i32,
                            y: (p.y - viewer_chunk.y) as i32,
                            z: (p.z - viewer_chunk.z) as i32,
                        };
                        assert(in_box_spec(dlt, dstart, dend));
                        lemma_box_membership(dstart, dend, dlt);
                        let j = crate::ranges::box_index_spec(dstart, dend, dlt);
                        assert(crate::ranges::matches_coord(
                            dlt,
                            crate::ranges::box_coord_spec(dstart, dend, j),
                        ));
                        assert(deltas@[j] == dlt) by {
                            assert(crate::ranges::matches_coord(
                                deltas@[j],
                                crate::ranges::box_coord_spec(dstart, dend, j),
                            ));
                            assert(deltas@[j].x == dlt.x);
                            assert(deltas@[j].y == dlt.y);
                            assert(deltas@[j].z == dlt.z);
                        };
                        assert(ivec_add_spec(viewer_chunk, dlt) == p);
                    }
                };
            }
            ring = ring + 1;
        }
        self.chunk_pos_center = Some(viewer_chunk);
        proof {
            assert(self.map_spec() == map_of_seq(msnap0));
            assert forall|p: IVec3|
                in_bounds_spec(p, viewer_chunk, distance as int) && !m0.contains(p) && !q0.contains(
                    p,
                ) implies self.chunk_update_queue@.contains(p) by {
                assert(cheb_dist_spec(p, viewer_chunk) < distance);
            };
        }
        req
    }
}

/// Membership in a sequence extended by one element on the right.
proof fn lemma_append_one_contains(s: Seq<IVec3>, p: IVec3, x: IVec3)
    ensures
        (s + seq![p]).contains(x) <==> (s.contains(x) || x == p),
{
    if (s + seq![p]).contains(x) {
        let w = choose|w: int| 0 <= w < (s + seq![p]).len() && #[trigger] (s + seq![p])[w] == x;
        if w < s.len() {
            assert(s[w] == x);
        } else {
            assert(x == p);
        }
    }
    if s.contains(x) {
        let w = choose|w: int| 0 <= w < s.len() && #[trigger] s[w] == x;
        assert((s + seq![p])[w] == x);
    }
    if x == p {
        assert((s + seq![p])[s.len() as int] == x);
    }
}

/// Membership in a sequence after a push.
proof fn lemma_push_contains(s: Seq<IVec3>, p: IVec3, x: IVec3)
    ensures
        s.push(p).contains(x) <==> (s.contains(x) || x == p),
{
    assert(s.push(p) =~= s + seq![p]);
    lemma_append_one_contains(s, p, x);
}

/// A coordinate is worth meshing under a loaded-chunk mapping when its
/// chunk is loaded and its mesh has at least one face.
pub open spec fn meshable_spec(m: Map<IVec3, Seq<u8>>, p: IVec3) -> bool {
    m.contains_key(p) && mesh_spec(m, p).len() > 0
}

/// Of a run of dequeued coordinates, the ones that yield a mesh, in
/// dequeue order.
pub open spec fn mesh_positions_spec(m: Map<IVec3, Seq<u8>>, coords: Seq<IVec3>) -> Seq<IVec3>
    decreases coords.len(),
{
    if coords.len() == 0 {
        Seq::empty()
    } else {
        (if meshable_spec(m, coords[0]) {
            seq![coords[0]]
        } else {
            Seq::empty()
        }) + mesh_positions_spec(m, coords.skip(1))
    }
}

/// How many coordinates one tick dequeues: up to the fixed batch size.
pub open spec fn batch_len_spec(qlen: int) -> int {
    if qlen < 4 {
        qlen
    } else {
        4
    }
}

impl ChunkManager {
    /// One meshing step of the per-frame tick: dequeues up to the batch
    /// size of coordinates, builds a mesh for each whose chunk is loaded,
    /// and returns the non-empty meshes, recording their coordinates as
    /// meshed. Coordinates whose chunk is missing or whose mesh would be
    /// empty produce nothing.
    pub fn chunk_mesh_gen(&mut self) -> (r: Vec<ChunkMesh>)
        requires
            old(self).wf(),
        ensures
            final(self).wf(),
            final(self).chunk_map@ == old(self).chunk_map@,
            final(self).chunks_left_loading == old(self).chunks_left_loading,
            final(self).chunk_pos_center == old(self).chunk_pos_center,
            final(self).chunk_update_queue@ == old(self).chunk_update_queue@.skip(
                batch_len_spec(old(self).chunk_update_queue@.len() as int),
            ),
            ({
                let outpos = mesh_positions_spec(
                    old(self).map_spec(),
                    old(self).chunk_update_queue@.take(
                        batch_len_spec(old(self).chunk_update_queue@.len() as int),
                    ),
                );
                &&& r@.len() == outpos.len()
                &&& forall|idx: int|
                    0 <= idx < r@.len() ==> (#[trigger] r@[idx]).chunk_pos == outpos[idx]
                        && r@[idx].vertices@ == mesh_spec(old(self).map_spec(), outpos[idx])
                        && r@[idx].vertices@.len() > 0
                &&& forall|x: IVec3|
                    #[trigger] final(self).meshed@.contains(x) <==> old(self).meshed@.contains(x)
                        || outpos.contains(x)
            }),
    {
        let ghost m = self.map_spec();
        let ghost q0 = self.chunk_update_queue@;
        let ghost k = batch_len_spec(q0.len() as int);
        let ghost batch = q0.take(k);
        let ghost m0 = self.meshed@;
        let ghost msnap = self.chunk_map@;
        let mut out: Vec<ChunkMesh> = Vec::new();
        let ghost outpos = Seq::<IVec3>::empty();
        let mut n: usize = 0;
        proof {
            assert(batch.skip(0) =~= batch);
            assert(q0.skip(0) =~= q0);
            assert(outpos + mesh_positions_spec(m, batch.skip(0)) =~= mesh_positions_spec(
                m,
                batch,
            ));
        }
        let mut outpos_totality: Ghost<Seq<IVec3>> = Ghost(outpos);
        while n < 4 && self.chunk_update_queue.len() > 0
            invariant
                old(self).wf(),
                self.wf(),
                n <= k,
                k == batch_len_spec(q0.len() as int),
                batch == q0.take(k),
                m == map_of_seq(msnap),
                self.chunk_map@ == msnap,
                msnap == old(self).chunk_map@,
                m == old(self).map_spec(),
                m0 == old(self).meshed@,
                q0 == old(self).chunk_update_queue@,
                self.chunks_left_loading == old(self).chunks_left_loading,
                self.chunk_pos_center == old(self).chunk_pos_center,
                self.chunk_update_queue@ == q0.skip(n as int),
                mesh_positions_spec(m, batch) == outpos_totality@ + mesh_positions_spec(
                    m,
                    batch.skip(n as int),
                ),
                out@.len() == outpos_totality@.len(),
                forall|idx: int|
                    0 <= idx < out@.len() ==> (#[trigger] out@[idx]).chunk_pos
                        == outpos_totality@[idx] && out@[idx].vertices@ == mesh_spec(
                        m,
                        outpos_totality@[idx],
                    ) && out@[idx].vertices@.len() > 0,
                forall|x: IVec3|
                    #[trigger] self.meshed@.contains(x) <==> m0.contains(x)
                        || outpos_totality@.contains(x),
            decreases 4 - n,
        {
            proof {
                assert(q0.skip(n as int).len() > 0);
                assert(n < q0.len());
                assert(n < k);
            }
            let popt = self.chunk_update_queue.pop_front();
            let p = match popt {
                Some(p) => p,
                None => vstd::pervasive::unreached(),
            };
            proof {
                assert(p == q0.skip(n as int)[0]);
                assert(p == q0[n as int]);
                assert(batch.skip(n as int)[0] == q0[n as int]);
                assert(self.chunk_update_queue@ =~= q0.skip(n + 1));
                assert(batch.skip(n as int).skip(1) =~= batch.skip(n + 1));
                assert(chunk_pos_bounded(p)) by {
                    assert(old(self).chunk_update_queue@[n as int] == p);
                };
                assert forall|kk: int|
                    0 <= kk < self.chunk_update_queue@.len() implies chunk_pos_bounded(
                    #[trigger] self.chunk_update_queue@[kk],
                ) by {
                    assert(self.chunk_update_queue@[kk] == q0[n + 1 + kk]);
                    assert(old(self).chunk_update_queue@[n + 1 + kk] == q0[n + 1 + kk]);
                };
            }
            let mesh_opt = match self.get(p) {
                Some(chunk) => crate::mesh::ChunkMesh::new(chunk, self),
                None => None,
            };
            let ghost outpos_before = outpos_totality@;
            match mesh_opt {
                Some(mesh) => {
                    proof {
                        assert(meshable_spec(m, p));
                        assert(mesh.chunk_pos == p);
                        outpos_totality@ = outpos_before + seq![p];
                        assert(mesh_positions_spec(m, batch.skip(n as int)) == seq![p]
                            + mesh_positions_spec(m, batch.skip(n + 1)));
                        assert(outpos_before + (seq![p] + mesh_positions_spec(
                            m,
                            batch.skip(n + 1),
                        )) =~= (outpos_before + seq![p]) + mesh_positions_spec(
                            m,
                            batch.skip(n + 1),
                        ));
                    }
                    out.push(mesh);
                    let already = vec_contains(&self.meshed, p);
                    if !already {
                        let ghost mb = self.meshed@;
                        proof {
                            assert forall|k1: int, k2: int|
                                0 <= k1 < k2 < mb.push(p).len() implies mb.push(p)[k1] != mb.push(
                                p,
                            )[k2] by {
                                if k2 == mb.len() {
                                    assert(mb.push(p)[k2] == p);
                                    assert(mb.push(p)[k1] == mb[k1]);
                                    assert(mb.contains(mb[k1])) by {
                                        assert(0 <= k1 < mb.len());
                                    };
                                }
                            };
                        }
                        self.meshed.push(p);
                        proof {
                            assert forall|x: IVec3|
                                #[trigger] self.meshed@.contains(x) <==> (m0.contains(x)
                                    || outpos_totality@.contains(x)) by {
                                lemma_push_contains(mb, p, x);
                                lemma_append_one_contains(outpos_before, p, x);
                            };
                        }
                    } else {
                        proof {
                            assert forall|x: IVec3|
                                #[trigger] self.meshed@.contains(x) <==> (m0.contains(x)
                                    || outpos_totality@.contains(x)) by {
                                lemma_append_one_contains(outpos_before, p, x);
                            };
                        }
                    }
                },
                None => {
                    proof {
                        assert(!meshable_spec(m, p));
                        assert(mesh_positions_spec(m, batch.skip(n as int))
                            == mesh_positions_spec(m, batch.skip(n + 1)));
                        assert(outpos_before + mesh_positions_spec(m, batch.skip(n + 1))
                            == mesh_positions_spec(m, batch));
                    }
                },
            }
            n = n + 1;
        }
        proof {
            assert(n == k) by {
                if n < k {
                    assert(q0.skip(n as int).len() == 0);
                    assert(k <= q0.len());
                }
            };
            assert(batch.skip(k) =~= Seq::<IVec3>::empty());
            assert(mesh_positions_spec(m, batch.skip(k)) =~= Seq::<IVec3>::empty());
            assert(outpos_totality@ + Seq::<IVec3>::empty() =~= outpos_totality@);
            assert(outpos_totality@ == mesh_positions_spec(m, batch));
        }
        out
    }

    /// Forgets every meshed coordinate outside the render range around the
    /// current center and returns them, so their meshes can be dropped.
    pub fn evict_meshes(&mut self, distance: i32) -> (removed: Vec<IVec3>)
        requires
            old(self).wf(),
            old(self).chunk_pos_center is Some,
        ensures
            final(self).wf(),
            final(self).chunk_map@ == old(self).chunk_map@,
            final(self).chunks_left_loading == old(self).chunks_left_loading,
            final(self).chunk_pos_center == old(self).chunk_pos_center,
            final(self).chunk_update_queue@ == old(self).chunk_update_queue@,
            old(self).chunk_pos_center matches Some(c) ==> {
                &&& forall|p: IVec3|
                    #[trigger] final(self).meshed@.contains(p) <==> old(self).meshed@.contains(p)
                        && in_bounds_spec(p, c, distance as int)
                &&& forall|p: IVec3|
                    #[trigger] removed@.contains(p) <==> old(self).meshed@.contains(p)
                        && !in_bounds_spec(p, c, distance as int)
            },
    {
        let center = match self.chunk_pos_center {
            Some(c) => c,
            None => vstd::pervasive::unreached(),
        };
        let ghost s0 = self.meshed@;
        let ghost n0 = s0.len() as int;
        let mut kept: Vec<IVec3> = Vec::new();
        let mut removed: Vec<IVec3> = Vec::new();
        proof {
            assert(self.meshed@ =~= s0.take(s0.len() as int));
        }
        while self.meshed.len() > 0
            invariant
                self.chunk_map@ == old(self).chunk_map@,
                self.chunks_left_loading == old(self).chunks_left_loading,
                self.chunk_pos_center == old(self).chunk_pos_center,
                self.chunk_update_queue@ == old(self).chunk_update_queue@,
                self.wf(),
                s0 == old(self).meshed@,
                n0 == s0.len(),
                forall|k1: int, k2: int| 0 <= k1 < k2 < n0 ==> s0[k1] != s0[k2],
                self.meshed@.len() <= n0,
                self.meshed@ == s0.take(self.meshed@.len() as int),
                forall|x: IVec3|
                    #[trigger] kept@.contains(x) <==> (exists|j: int|
                        self.meshed@.len() <= j < n0 && #[trigger] s0[j] == x && in_bounds_spec(
                            x,
                            center,
                            distance as int,
                        )),
                forall|x: IVec3|
                    #[trigger] removed@.contains(x) <==> (exists|j: int|
                        self.meshed@.len() <= j < n0 && #[trigger] s0[j] == x && !in_bounds_spec(
                            x,
                            center,
                            distance as int,
                        )),
                forall|k1: int, k2: int| 0 <= k1 < k2 < kept@.len() ==> kept@[k1] != kept@[k2],
            decreases self.meshed@.len(),
        {
            let popt = self.meshed.pop();
            let p = match popt {
                Some(p) => p,
                None => vstd::pervasive::unreached(),
            };
            let ghost j = self.meshed@.len() as int;
            proof {
                assert(p == s0.take(j + 1)[j]);
                assert(p == s0[j]);
                assert(self.meshed@ =~= s0.take(j));
            }
            let ghost keptb = kept@;
            let ghost removedb = removed@;
            if crate::coords::in_bounds(p, center, distance) {
                proof {
                    assert forall|idx: int| 0 <= idx < keptb.len() implies keptb[idx] != p by {
                        assert(keptb.contains(keptb[idx]));
                        let jj = choose|jj: int|
                            j + 1 <= jj < n0 && #[trigger] s0[jj] == keptb[idx] && in_bounds_spec(
                                keptb[idx],
                                center,
                                distance as int,
                            );
                        assert(s0[jj] != s0[j]);
                    };
                }
                kept.push(p);
            } else {
                removed.push(p);
            }
            proof {
                assert forall|x: IVec3| #[trigger] kept@.contains(x) implies (exists|jj: int|
                    j <= jj < n0 && #[trigger] s0[jj] == x && in_bounds_spec(
                        x,
                        center,
                        distance as int,
                    )) by {
                    let w = choose|w: int| 0 <= w < kept@.len() && #[trigger] kept@[w] == x;
                    if w < keptb.len() {
                        assert(keptb[w] == x);
                        assert(keptb.contains(x));
                    } else {
                        assert(x == p);
                        assert(s0[j] == x);
                    }
                };
                assert forall|x: IVec3|
                    (exists|jj: int|
                        j <= jj < n0 && #[trigger] s0[jj] == x && in_bounds_spec(
                            x,
                            center,
                            distance as int,
                        )) implies #[trigger] kept@.contains(x) by {
                    let jj = choose|jj: int|
                        j <= jj < n0 && #[trigger] s0[jj] == x && in_bounds_spec(
                            x,
                            center,
                            distance as int,
                        );
                    if jj == j {
                        assert(kept@[kept@.len() - 1] == p);
                    } else {
                        assert(keptb.contains(x));
                        let w = choose|w: int| 0 <= w < keptb.len() && #[trigger] keptb[w] == x;
                        assert(kept@[w] == x);
                    }
                };
                assert forall|x: IVec3| #[trigger] removed@.contains(x) implies (exists|jj: int|
                    j <= jj < n0 && #[trigger] s0[jj] == x && !in_bounds_spec(
                        x,
                        center,
                        distance as int,
                    )) by {
                    let w = choose|w: int| 0 <= w < removed@.len() && #[trigger] removed@[w] == x;
                    if w < removedb.len() {
                        assert(removedb[w] == x);
                        assert(removedb.contains(x));
                    } else {
                        assert(x == p);
                        assert(s0[j] == x);
                    }
                };
                assert forall|x: IVec3|
                    (exists|jj: int|
                        j <= jj < n0 && #[trigger] s0[jj] == x && !in_bounds_spec(
                            x,
                            center,
                            distance as int,
                        )) implies #[trigger] removed@.contains(x) by {
                    let jj = choose|jj: int|
                        j <= jj < n0 && #[trigger] s0[jj] == x && !in_bounds_spec(
                            x,
                            center,
                            distance as int,
                        );
                    if jj == j {
                        assert(removed@[removed@.len() - 1] == p);
                    } else {
                        assert(removedb.contains(x));
                        let w = choose|w: int|
                            0 <= w < removedb.len() && #[trigger] removedb[w] == x;
                        assert(removed@[w] == x);
                    }
                };
            }
        }
        self.meshed = kept;
        removed
    }
}

} // verus!
