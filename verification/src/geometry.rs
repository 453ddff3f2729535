use vstd::prelude::*;

verus! {

pub open spec fn sgn(d: int) -> int {
    if d > 0 { 1 } else if d < 0 { -1 } else { 0 }
}

pub open spec fn iabs(d: int) -> int {
    if d >= 0 { d } else { -d }
}

pub open spec fn imin(a: int, b: int) -> int {
    if a <= b { a } else { b }
}

pub open spec fn imax(a: int, b: int) -> int {
    if a >= b { a } else { b }
}

/// Multiplying by a sign only flips or cancels.
pub proof fn lemma_sgn_mul(d: int, m: int)
    ensures
        d > 0 ==> sgn(d) * m == m,
        d < 0 ==> sgn(d) * m == -m,
        d == 0 ==> sgn(d) * m == 0,
{
    let s = sgn(d);
    if d > 0 {
        assert(s * m == m) by (nonlinear_arith)
            requires s == 1,
        {}
    } else if d < 0 {
        assert(s * m == -m) by (nonlinear_arith)
            requires s == -1,
        {}
    } else {
        assert(s * m == 0) by (nonlinear_arith)
            requires s == 0,
        {}
    }
}

/// A distance walked in the direction of its own sign lands on the
/// difference itself.
pub proof fn lemma_sgn_iabs(d: int)
    ensures
        sgn(d) * iabs(d) == d,
{
    lemma_sgn_mul(d, iabs(d));
}

// -------------------------------------------------------------------
// The L-shaped corridor path between two cells: first purely
// horizontal from `(ax, ay)` to `(bx, ay)`, then purely vertical down
// to `(bx, by)`. The cell `(ax, ay)` itself is not part of the path;
// the destination is its last cell (when the path is non-empty).
// -------------------------------------------------------------------

pub open spec fn lpath_len(ax: int, ay: int, bx: int, by: int) -> int {
    iabs(bx - ax) + iabs(by - ay)
}

pub open spec fn lpath_x(ax: int, ay: int, bx: int, by: int, k: int) -> int {
    if k < iabs(bx - ax) { ax + sgn(bx - ax) * (k + 1) } else { bx }
}

pub open spec fn lpath_y(ax: int, ay: int, bx: int, by: int, k: int) -> int {
    if k < iabs(bx - ax) { ay } else { ay + sgn(by - ay) * (k - iabs(bx - ax) + 1) }
}

/// Every cell of the L-shaped path lies in the bounding box of its two
/// endpoints.
pub proof fn lemma_lpath_in_box(ax: int, ay: int, bx: int, by: int, k: int)
    requires
        0 <= k < lpath_len(ax, ay, bx, by),
    ensures
        imin(ax, bx) <= lpath_x(ax, ay, bx, by, k) <= imax(ax, bx),
        imin(ay, by) <= lpath_y(ax, ay, bx, by, k) <= imax(ay, by),
{
    let dx = bx - ax;
    let dy = by - ay;
    if k < iabs(dx) {
        lemma_sgn_mul(dx, k + 1);
    } else {
        lemma_sgn_mul(dy, k - iabs(dx) + 1);
    }
}

/// Consecutive cells of the L-shaped path are edge-adjacent, whatever
/// the signs of the two displacements, and the first cell is
/// edge-adjacent to the start.
pub proof fn lemma_lpath_contiguous(ax: int, ay: int, bx: int, by: int, k: int)
    requires
        0 <= k < lpath_len(ax, ay, bx, by),
    ensures
        ({
            let px = if k == 0 { ax } else { lpath_x(ax, ay, bx, by, k - 1) };
            let py = if k == 0 { ay } else { lpath_y(ax, ay, bx, by, k - 1) };
            iabs(lpath_x(ax, ay, bx, by, k) - px) + iabs(lpath_y(ax, ay, bx, by, k) - py) == 1
        }),
{
    let dx = bx - ax;
    let dy = by - ay;
    lemma_sgn_mul(dx, k + 1);
    lemma_sgn_mul(dx, k);
    lemma_sgn_mul(dy, k - iabs(dx) + 1);
    lemma_sgn_mul(dy, k - iabs(dx));
    lemma_sgn_iabs(dx);
}

/// A non-empty L-shaped path ends on its destination cell.
pub proof fn lemma_lpath_last(ax: int, ay: int, bx: int, by: int)
    requires
        lpath_len(ax, ay, bx, by) > 0,
    ensures
        lpath_x(ax, ay, bx, by, lpath_len(ax, ay, bx, by) - 1) == bx,
        lpath_y(ax, ay, bx, by, lpath_len(ax, ay, bx, by) - 1) == by,
{
    let dx = bx - ax;
    let dy = by - ay;
    let last = lpath_len(ax, ay, bx, by) - 1;
    if last < iabs(dx) {
        lemma_sgn_iabs(dx);
    } else {
        lemma_sgn_iabs(dy);
    }
}

// -------------------------------------------------------------------
// The sight-line trace between two cells: one step per tick, moving
// one cell toward the target on each axis that still differs, so the
// trace runs diagonally and then straight. Index 0 is the observer,
// index `cheb` the target; distances are Chebyshev throughout.
// -------------------------------------------------------------------

/// Chebyshev distance: the number of steps of the trace.
pub open spec fn cheb(ax: int, ay: int, bx: int, by: int) -> int {
    imax(iabs(bx - ax), iabs(by - ay))
}

pub open spec fn line_x(ax: int, bx: int, k: int) -> int {
    ax + sgn(bx - ax) * imin(k, iabs(bx - ax))
}

pub open spec fn line_y(ay: int, by: int, k: int) -> int {
    ay + sgn(by - ay) * imin(k, iabs(by - ay))
}

/// The trace starts on the observer and has settled on the target at
/// every index from `cheb` on.
pub proof fn lemma_line_ends(ax: int, bx: int, k: int)
    ensures
        line_x(ax, bx, 0) == ax,
        k >= iabs(bx - ax) ==> line_x(ax, bx, k) == bx,
{
    lemma_sgn_mul(bx - ax, 0);
    lemma_sgn_iabs(bx - ax);
}

/// One step of the trace: the coordinate moves one cell toward the
/// target until it settles there.
pub proof fn lemma_line_step(ax: int, bx: int, k: int)
    requires
        0 <= k,
    ensures
        k < iabs(bx - ax) ==> line_x(ax, bx, k + 1) == line_x(ax, bx, k) + sgn(bx - ax)
            && line_x(ax, bx, k) != bx,
        k >= iabs(bx - ax) ==> line_x(ax, bx, k + 1) == bx && line_x(ax, bx, k) == bx,
{
    let d = bx - ax;
    lemma_sgn_mul(d, k);
    lemma_sgn_mul(d, k + 1);
    lemma_sgn_iabs(d);
    if k < iabs(d) {
        if d > 0 {
            assert(line_x(ax, bx, k) == ax + k);
        } else {
            assert(line_x(ax, bx, k) == ax - k);
        }
    }
}

/// The trace never leaves the bounding box of its endpoints.
pub proof fn lemma_line_in_box(ax: int, bx: int, k: int)
    requires
        0 <= k,
    ensures
        imin(ax, bx) <= line_x(ax, bx, k) <= imax(ax, bx),
{
    lemma_sgn_mul(bx - ax, imin(k, iabs(bx - ax)));
}

/// Walking `i` ticks along the trace covers Chebyshev distance exactly
/// `i`, as long as the target has not been passed.
pub proof fn lemma_line_point_dist(ax: int, ay: int, bx: int, by: int, i: int)
    requires
        0 <= i <= cheb(ax, ay, bx, by),
    ensures
        cheb(ax, ay, line_x(ax, bx, i), line_y(ay, by, i)) == i,
{
    let dx = bx - ax;
    let dy = by - ay;
    lemma_sgn_mul(dx, imin(i, iabs(dx)));
    lemma_sgn_mul(dy, imin(i, iabs(dy)));
}

/// The trace toward an intermediate cell of a longer trace coincides
/// with that longer trace up to the intermediate cell.
pub proof fn lemma_line_prefix(ax: int, bx: int, i: int, j: int)
    requires
        0 <= j <= i,
    ensures
        line_x(ax, line_x(ax, bx, i), j) == line_x(ax, bx, j),
{
    let dx = bx - ax;
    let px = line_x(ax, bx, i);
    lemma_sgn_mul(dx, imin(i, iabs(dx)));
    lemma_sgn_mul(dx, imin(j, iabs(dx)));
    let pd = px - ax;
    lemma_sgn_mul(pd, imin(j, iabs(pd)));
    if dx > 0 {
        assert(pd == imin(i, dx));
    } else if dx < 0 {
        assert(pd == -imin(i, -dx));
    }
}

} // verus!
