use vstd::prelude::*;
use vstd::arithmetic::div_mod::{
    lemma_fundamental_div_mod_converse,
    lemma_mod_multiples_vanish,
};
use crate::coords::IVec3;

verus! {

/// Number of integers in the half-open interval `[a, b)`, zero when reversed.
pub open spec fn extent_spec(a: int, b: int) -> int {
    if b >= a {
        b - a
    } else {
        0
    }
}

/// Number of coordinates in the half-open box `[start, end)`.
pub open spec fn box_len_spec(start: IVec3, end: IVec3) -> int {
    extent_spec(start.x as int, end.x as int) * extent_spec(start.y as int, end.y as int)
        * extent_spec(start.z as int, end.z as int)
}

/// Whether `p` lies in the half-open box `[start, end)`.
pub open spec fn in_box_spec(p: IVec3, start: IVec3, end: IVec3) -> bool {
    &&& start.x <= p.x < end.x
    &&& start.y <= p.y < end.y
    &&& start.z <= p.z < end.z
}

/// The `j`-th coordinate of the box walk: `x` varies slowest, `z` fastest.
pub open spec fn box_coord_spec(start: IVec3, end: IVec3, j: int) -> (int, int, int) {
    let ey = extent_spec(start.y as int, end.y as int);
    let ez = extent_spec(start.z as int, end.z as int);
    (start.x + j / (ey * ez), start.y + (j / ez) % ey, start.z + j % ez)
}

pub open spec fn matches_coord(p: IVec3, c: (int, int, int)) -> bool {
    p.x as int == c.0 && p.y as int == c.1 && p.z as int == c.2
}

/// Enumerates every coordinate of the half-open box `[start, end)`, `x`
/// varying slowest and `z` fastest.
pub fn iter_3d_vec(start: IVec3, end: IVec3) -> (r: Vec<IVec3>)
    requires
        extent_spec(start.x as int, end.x as int) <= 1024,
        extent_spec(start.y as int, end.y as int) <= 1024,
        extent_spec(start.z as int, end.z as int) <= 1024,
    ensures
        r@.len() == box_len_spec(start, end),
        forall|j: int|
            0 <= j < r@.len() ==> matches_coord(r@[j], box_coord_spec(start, end, j)),
        forall|j: int| 0 <= j < r@.len() ==> in_box_spec(r@[j], start, end),
{
    let mut r: Vec<IVec3> = Vec::new();
    if end.x <= start.x || end.y <= start.y || end.z <= start.z {
        proof {
            let ax = extent_spec(start.x as int, end.x as int);
            let ay = extent_spec(start.y as int, end.y as int);
            let az = extent_spec(start.z as int, end.z as int);
            assert(ax == 0 || ay == 0 || az == 0);
            assert(ax * ay * az == 0) by (nonlinear_arith)
                requires
                    ax == 0 || ay == 0 || az == 0,
            ;
        }
        return r;
    }
    let ghost ey: int = end.y - start.y;
    let ghost ez: int = end.z - start.z;
    let mut x: i32 = start.x;
    while x < end.x
        invariant
            start.x <= x <= end.x,
            end.x > start.x && end.y > start.y && end.z > start.z,
            ey == end.y - start.y && ez == end.z - start.z,
            r@.len() == (x - start.x) * ey * ez,
            forall|j: int|
                0 <= j < r@.len() ==> matches_coord(r@[j], box_coord_spec(start, end, j)),
            forall|j: int| 0 <= j < r@.len() ==> in_box_spec(r@[j], start, end),
        decreases end.x - x,
    {
        let mut y: i32 = start.y;
        while y < end.y
            invariant
                start.x <= x < end.x,
                start.y <= y <= end.y,
                end.x > start.x && end.y > start.y && end.z > start.z,
                ey == end.y - start.y && ez == end.z - start.z,
                r@.len() == ((x - start.x) * ey + (y - start.y)) * ez,
                forall|j: int|
                    0 <= j < r@.len() ==> matches_coord(r@[j], box_coord_spec(start, end, j)),
                forall|j: int| 0 <= j < r@.len() ==> in_box_spec(r@[j], start, end),
            decreases end.y - y,
        {
            let mut z: i32 = start.z;
            while z < end.z
                invariant
                    start.x <= x < end.x,
                    start.y <= y < end.y,
                    start.z <= z <= end.z,
                    end.x > start.x && end.y > start.y && end.z > start.z,
                    ey == end.y - start.y && ez == end.z - start.z,
                    r@.len() == ((x - start.x) * ey + (y - start.y)) * ez + (z - start.z),
                    forall|j: int|
                        0 <= j < r@.len() ==> matches_coord(r@[j], box_coord_spec(start, end, j)),
                    forall|j: int| 0 <= j < r@.len() ==> in_box_spec(r@[j], start, end),
                decreases end.z - z,
            {
                proof {
                    lemma_box_push(start, end, x as int, y as int, z as int);
                }
                r.push(IVec3 { x, y, z });
                z = z + 1;
            }
            proof {
                assert(((x - start.x) * ey + (y - start.y)) * ez + ez == ((x - start.x) * ey + (
                y + 1 - start.y)) * ez) by (nonlinear_arith);
            }
            y = y + 1;
        }
        proof {
            assert(((x - start.x) * ey + ey) * ez == ((x + 1 - start.x) * ey) * ez)
                by (nonlinear_arith);
            assert(((x + 1 - start.x) * ey) * ez == (x + 1 - start.x) * ey * ez)
                by (nonlinear_arith);
            assert(((x - start.x) * ey + (end.y - start.y)) * ez == (x + 1 - start.x) * ey * ez);
        }
        x = x + 1;
    }
    proof {
        assert((end.x - start.x) * ey * ez == box_len_spec(start, end));
    }
    r
}

/// The index a coordinate occupies in the box walk.
pub open spec fn box_index_spec(start: IVec3, end: IVec3, p: IVec3) -> int {
    let ey = extent_spec(start.y as int, end.y as int);
    let ez = extent_spec(start.z as int, end.z as int);
    ((p.x - start.x) * ey + (p.y - start.y)) * ez + (p.z - start.z)
}

/// The coordinate pushed at position `((x-sx)*ey + (y-sy))*ez + (z-sz)` of
/// the walk is `(x, y, z)`: the index formulas invert the walk order.
proof fn lemma_box_push(start: IVec3, end: IVec3, x: int, y: int, z: int)
    requires
        end.x > start.x,
        end.y > start.y,
        end.z > start.z,
        start.x <= x < end.x,
        start.y <= y < end.y,
        start.z <= z < end.z,
    ensures
        ({
            let p = IVec3 { x: x as i32, y: y as i32, z: z as i32 };
            matches_coord(p, box_coord_spec(start, end, box_index_spec(start, end, p)))
        }),
        0 <= box_index_spec(
            start,
            end,
            IVec3 { x: x as i32, y: y as i32, z: z as i32 },
        ) < box_len_spec(start, end),
{
    let ey = end.y - start.y;
    let ez = end.z - start.z;
    let cx = x - start.x;
    let cy = y - start.y;
    let cz = z - start.z;
    let j = (cx * ey + cy) * ez + cz;
    assert(j == cx * (ey * ez) + (cy * ez + cz)) by (nonlinear_arith)
        requires
            j == (cx * ey + cy) * ez + cz,
    ;
    assert(0 <= cy * ez + cz < ey * ez) by (nonlinear_arith)
        requires
            0 <= cy < ey,
            0 <= cz < ez,
    ;
    assert(ey * ez > 0) by (nonlinear_arith)
        requires
            ey > 0,
            ez > 0,
    ;
    lemma_fundamental_div_mod_converse(j, ey * ez, cx, cy * ez + cz);
    assert(j / (ey * ez) == cx);
    assert(j == (cx * ey + cy) * ez + cz);
    lemma_fundamental_div_mod_converse(j, ez, cx * ey + cy, cz);
    assert(j / ez == cx * ey + cy);
    assert(j % ez == cz);
    lemma_fundamental_div_mod_converse(cx * ey + cy, ey, cx, cy);
    assert((cx * ey + cy) % ey == cy);
    assert(0 <= j) by (nonlinear_arith)
        requires
            j == cx * (ey * ez) + (cy * ez + cz),
            0 <= cx,
            0 <= cy * ez + cz,
            ey > 0,
            ez > 0,
    ;
    assert(j < (end.x - start.x) * ey * ez) by (nonlinear_arith)
        requires
            j == cx * (ey * ez) + (cy * ez + cz),
            cx < end.x - start.x,
            0 <= cy * ez + cz < ey * ez,
            0 <= cx,
    ;
}

/// Every coordinate of the half-open box occurs in the walk, at the index
/// the walk formulas give it.
pub proof fn lemma_box_membership(start: IVec3, end: IVec3, p: IVec3)
    requires
        in_box_spec(p, start, end),
    ensures
        0 <= box_index_spec(start, end, p) < box_len_spec(start, end),
        matches_coord(p, box_coord_spec(start, end, box_index_spec(start, end, p))),
{
    lemma_box_push(start, end, p.x as int, p.y as int, p.z as int);
    assert(IVec3 { x: p.x, y: p.y, z: p.z } == p);
}

/// Enumerates the cubic box `[start, end)` on every axis.
pub fn iter_3d(start: i32, end: i32) -> (r: Vec<IVec3>)
    requires
        extent_spec(start as int, end as int) <= 1024,
    ensures
        ({
            let s = IVec3 { x: start, y: start, z: start };
            let e = IVec3 { x: end, y: end, z: end };
            &&& r@.len() == box_len_spec(s, e)
            &&& forall|j: int|
                0 <= j < r@.len() ==> matches_coord(r@[j], box_coord_spec(s, e, j))
            &&& forall|j: int| 0 <= j < r@.len() ==> in_box_spec(r@[j], s, e)
        }),
{
    iter_3d_vec(IVec3 { x: start, y: start, z: start }, IVec3 { x: end, y: end, z: end })
}

} // verus!
