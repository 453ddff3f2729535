use vstd::prelude::*;

use crate::geometry::cheb;
use crate::geometry::iabs;
use crate::geometry::imax;
use crate::geometry::lemma_line_ends;
use crate::geometry::lemma_line_in_box;
use crate::geometry::lemma_line_point_dist;
use crate::geometry::lemma_line_prefix;
use crate::geometry::lemma_line_step;
use crate::geometry::line_x;
use crate::geometry::line_y;
use crate::map::GameMap;
use crate::map::Pos;
use crate::map::TileType;

verus! {

/// The cell blocks sight.
pub open spec fn opaque_at(m: GameMap, x: int, y: int) -> bool {
    m.tile_at(x, y) == TileType::Wall
}

/// No opaque cell lies strictly between the two endpoints along the
/// sight-line trace; the endpoints themselves do not count.
pub open spec fn los_clear(m: GameMap, ax: int, ay: int, bx: int, by: int) -> bool {
    forall|k: int|
        0 < k < cheb(ax, ay, bx, by)
            ==> !opaque_at(m, #[trigger] line_x(ax, bx, k), line_y(ay, by, k))
}

/// The cell `(x, y)` is visible to an observer at `(ox, oy)` with the
/// given sight range: it is on the map, within Chebyshev distance
/// `range`, and no wall stands strictly between. A blocking wall is
/// itself visible; cells beyond it along the trace are not.
pub open spec fn visible_from(m: GameMap, ox: int, oy: int, x: int, y: int, range: int) -> bool {
    &&& m.in_bounds(x, y)
    &&& cheb(ox, oy, x, y) <= range
    &&& los_clear(m, ox, oy, x, y)
}

/// An in-bounds observer always sees its own cell, whatever the range.
pub proof fn lemma_own_tile_visible(m: GameMap, ox: int, oy: int, range: int)
    requires
        m.in_bounds(ox, oy),
        range >= 0,
    ensures
        visible_from(m, ox, oy, ox, oy, range),
{
}

/// A wall strictly between the observer and a target hides the target,
/// while the first such wall is itself visible when it is in range:
/// `k` names the wall's position on the trace toward the target.
pub proof fn lemma_occlusion(m: GameMap, ox: int, oy: int, tx: int, ty: int, range: int, k: int)
    requires
        m.wf(),
        m.in_bounds(ox, oy),
        m.in_bounds(tx, ty),
        0 < k < cheb(ox, oy, tx, ty) <= range,
        opaque_at(m, line_x(ox, tx, k), line_y(oy, ty, k)),
        forall|j: int|
            0 < j < k ==> !opaque_at(m, #[trigger] line_x(ox, tx, j), line_y(oy, ty, j)),
    ensures
        !visible_from(m, ox, oy, tx, ty, range),
        visible_from(m, ox, oy, line_x(ox, tx, k), line_y(oy, ty, k), range),
{
    let wx = line_x(ox, tx, k);
    let wy = line_y(oy, ty, k);
    lemma_line_point_dist(ox, oy, tx, ty, k);
    lemma_line_in_box(ox, tx, k);
    lemma_line_in_box(oy, ty, k);
    assert(m.in_bounds(wx, wy));
    assert(cheb(ox, oy, wx, wy) == k);
    assert forall|j: int| 0 < j < cheb(ox, oy, wx, wy)
        implies !opaque_at(m, #[trigger] line_x(ox, wx, j), line_y(oy, wy, j)) by {
        lemma_line_prefix(ox, tx, k, j);
        lemma_line_prefix(oy, ty, k, j);
        assert(!opaque_at(m, line_x(ox, tx, j), line_y(oy, ty, j)));
    }
}

/// Walks the sight-line trace from `a` to `b` and reports whether every
/// strictly intermediate cell is transparent.
#[verifier::loop_isolation(false)]
fn los_clear_exec(m: &GameMap, a: Pos, b: Pos) -> (r: bool)
    requires
        m.wf(),
        m.in_bounds(a.x as int, a.y as int),
        m.in_bounds(b.x as int, b.y as int),
    ensures
        r == los_clear(*m, a.x as int, a.y as int, b.x as int, b.y as int),
{
    let ghost ax = a.x as int;
    let ghost ay = a.y as int;
    let ghost bx = b.x as int;
    let ghost by = b.y as int;
    let ghost d = cheb(ax, ay, bx, by);
    let mut cx = a.x;
    let mut cy = a.y;
    let ghost mut k: int = 0;
    proof {
        lemma_line_ends(ax, bx, 0);
        lemma_line_ends(ay, by, 0);
    }
    while !(cx == b.x && cy == b.y)
        invariant
            0 <= k <= d,
            cx == line_x(ax, bx, k),
            cy == line_y(ay, by, k),
            forall|j: int|
                0 < j < d && j <= k
                    ==> !opaque_at(*m, #[trigger] line_x(ax, bx, j), line_y(ay, by, j)),
        decreases d - k,
    {
        proof {
            lemma_line_step(ax, bx, k);
            lemma_line_step(ay, by, k);
            if k == d {
                lemma_line_ends(ax, bx, k);
                lemma_line_ends(ay, by, k);
                assert(false);
            }
        }
        if cx < b.x {
            cx += 1;
        } else if cx > b.x {
            cx -= 1;
        }
        if cy < b.y {
            cy += 1;
        } else if cy > b.y {
            cy -= 1;
        }
        proof {
            k = k + 1;
            lemma_line_in_box(ax, bx, k);
            lemma_line_in_box(ay, by, k);
            if k < d {
                lemma_line_step(ax, bx, k);
                lemma_line_step(ay, by, k);
            }
        }
        if !(cx == b.x && cy == b.y) {
            proof {
                if k == d {
                    lemma_line_ends(ax, bx, k);
                    lemma_line_ends(ay, by, k);
                    assert(false);
                }
            }
            if m.is_opaque(cx as usize, cy as usize) {
                return false;
            }
        }
    }
    proof {
        if k < d {
            lemma_line_step(ax, bx, k);
            lemma_line_step(ay, by, k);
            assert(iabs(bx - ax) <= k || iabs(by - ay) <= k);
            assert(d == imax(iabs(bx - ax), iabs(by - ay)));
            assert(false);
        }
    }
    true
}

/// Computes the set of cells visible from `origin` within `range`:
/// every in-bounds cell within Chebyshev distance `range` whose sight
/// line from the observer is not blocked, each listed once. Cells a raw
/// trace would reach beyond the map are discarded by construction.
#[verifier::loop_isolation(false)]
pub fn compute_fov(m: &GameMap, origin: Pos, range: i32) -> (r: Vec<Pos>)
    requires
        m.wf(),
        m.in_bounds(origin.x as int, origin.y as int),
        range >= 0,
    ensures
        forall|p: Pos|
            #[trigger] r@.contains(p)
                <==> visible_from(*m, origin.x as int, origin.y as int, p.x as int, p.y as int,
                    range as int),
        forall|i: int, j: int| 0 <= i < j < r@.len() ==> r@[i] != r@[j],
{
    let ghost ox = origin.x as int;
    let ghost oy = origin.y as int;
    let x_lo: i32 = if (origin.x as i64) - (range as i64) < 0 { 0 } else { origin.x - range };
    let y_lo: i32 = if (origin.y as i64) - (range as i64) < 0 { 0 } else { origin.y - range };
    let x_hi: i32 = if (origin.x as i64) + (range as i64) > (m.w as i64) - 1 {
        (m.w - 1) as i32
    } else {
        origin.x + range
    };
    let y_hi: i32 = if (origin.y as i64) + (range as i64) > (m.h as i64) - 1 {
        (m.h - 1) as i32
    } else {
        origin.y + range
    };
    let mut r: Vec<Pos> = Vec::new();
    let mut xx = x_lo;
    while xx <= x_hi
        invariant
            x_lo <= xx <= x_hi + 1,
            forall|p: Pos|
                #[trigger] r@.contains(p)
                    <==> visible_from(*m, ox, oy, p.x as int, p.y as int, range as int)
                        && p.x < xx,
            forall|i: int, j: int| 0 <= i < j < r@.len() ==> r@[i] != r@[j],
        decreases x_hi + 1 - xx,
    {
        let mut yy = y_lo;
        while yy <= y_hi
            invariant
                x_lo <= xx <= x_hi,
                y_lo <= yy <= y_hi + 1,
                forall|p: Pos|
                    #[trigger] r@.contains(p)
                        <==> visible_from(*m, ox, oy, p.x as int, p.y as int, range as int)
                            && (p.x < xx || (p.x == xx && p.y < yy)),
                forall|i: int, j: int| 0 <= i < j < r@.len() ==> r@[i] != r@[j],
            decreases y_hi + 1 - yy,
        {
            let p = Pos { x: xx, y: yy };
            if los_clear_exec(m, origin, p) {
                proof {
                    assert(!r@.contains(p));
                }
                let ghost r0 = r@;
                r.push(p);
                proof {
                    assert(r@ == r0.push(p));
                    assert(r@[r@.len() - 1] == p);
                    assert forall|q: Pos| #[trigger] r@.contains(q)
                        implies visible_from(*m, ox, oy, q.x as int, q.y as int, range as int)
                            && (q.x < xx || (q.x == xx && q.y < yy + 1)) by {
                        let idx = choose|idx: int| 0 <= idx < r@.len() && r@[idx] == q;
                        if idx < r0.len() {
                            assert(r0[idx] == q);
                            assert(r0.contains(q));
                        } else {
                            assert(q == p);
                        }
                    }
                    assert forall|q: Pos|
                        visible_from(*m, ox, oy, q.x as int, q.y as int, range as int)
                            && (q.x < xx || (q.x == xx && q.y < yy + 1))
                        implies #[trigger] r@.contains(q) by {
                        if q.x < xx || (q.x == xx && q.y < yy) {
                            assert(r0.contains(q));
                            let idx = choose|idx: int| 0 <= idx < r0.len() && r0[idx] == q;
                            assert(r@[idx] == q);
                        } else {
                            assert(q == p);
                            assert(r@[r@.len() - 1] == q);
                        }
                    }
                }
            }
            yy += 1;
        }
        proof {
            assert forall|p: Pos| #[trigger] r@.contains(p)
                implies visible_from(*m, ox, oy, p.x as int, p.y as int, range as int)
                    && p.x < xx + 1 by {
            }
            assert forall|p: Pos|
                visible_from(*m, ox, oy, p.x as int, p.y as int, range as int) && p.x < xx + 1
                implies #[trigger] r@.contains(p) by {
                assert(p.y >= 0 && p.y < m.h);
                assert(iabs(p.y as int - oy) <= range);
                assert(y_lo <= p.y <= y_hi);
            }
        }
        xx += 1;
    }
    proof {
        assert forall|p: Pos|
            visible_from(*m, ox, oy, p.x as int, p.y as int, range as int)
            implies #[trigger] r@.contains(p) by {
            assert(p.x >= 0 && p.x < m.w);
            assert(iabs(p.x as int - ox) <= range);
            assert(x_lo <= p.x <= x_hi);
        }
    }
    r
}

} // verus!
