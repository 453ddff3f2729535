use vstd::prelude::*;

use crate::geometry::iabs;
use crate::geometry::lemma_lpath_in_box;
use crate::geometry::lemma_sgn_iabs;
use crate::geometry::lemma_sgn_mul;
use crate::geometry::lpath_len;
use crate::geometry::lpath_x;
use crate::geometry::lpath_y;
use crate::geometry::sgn;
use crate::rng::rng_new;
use crate::rng::rng_range;

verus! {

/// Target number of rooms per generated map.
pub const NROOMS: usize = 15;

/// Smallest sampled room side, inclusive.
pub const ROOM_MIN_SIZE: usize = 7;

/// Largest sampled room side, exclusive: sampling is inclusive of the
/// lower bound and exclusive of the upper one.
pub const ROOM_MAX_SIZE: usize = 15;

/// How many placement attempts the generator may spend in all.
pub const GEN_ATTEMPT_BUDGET: u32 = 1000;

/// A grid coordinate. `x` grows to the right, `y` grows downward.
#[derive(PartialEq, Eq, Structural, Clone, Copy, Debug)]
pub struct Pos {
    pub x: i32,
    pub y: i32,
}

/// A map cell is either an opaque, blocking wall or a transparent,
/// walkable floor.
#[derive(PartialEq, Eq, Structural, Clone, Copy, Debug)]
pub enum TileType {
    Wall,
    Floor,
}

/// The dungeon grid: `w * h` tiles in row-major order, the cumulative
/// record of tiles the player has ever seen, and the rooms accepted
/// during generation, in acceptance order.
pub struct GameMap {
    pub w: usize,
    pub h: usize,
    pub tiles: Vec<TileType>,
    pub revealed_tiles: Vec<bool>,
    pub rooms: Vec<Room>,
}

/// The one fatal generation outcome: no room was accepted within the
/// retry budget, so no map is exposed at all.
#[derive(PartialEq, Eq, Structural, Clone, Copy, Debug)]
pub enum MapError {
    GenerationFailure,
}

impl GameMap {
    /// Dimensions are positive, fit the `i32` coordinate space, and both
    /// per-tile tables hold exactly one entry per cell.
    pub open spec fn wf(self) -> bool {
        &&& 1 <= self.w <= i32::MAX
        &&& 1 <= self.h <= i32::MAX
        &&& self.tiles@.len() == self.w * self.h
        &&& self.revealed_tiles@.len() == self.w * self.h
    }

    pub open spec fn in_bounds(self, x: int, y: int) -> bool {
        0 <= x < self.w && 0 <= y < self.h
    }

    pub open spec fn spec_idx(self, x: int, y: int) -> int {
        x + self.w * y
    }

    pub open spec fn tile_at(self, x: int, y: int) -> TileType {
        self.tiles@[self.spec_idx(x, y)]
    }

    pub open spec fn revealed_at(self, x: int, y: int) -> bool {
        self.revealed_tiles@[self.spec_idx(x, y)]
    }

    /// A cell on the outermost row or column of the grid.
    pub open spec fn is_border(self, x: int, y: int) -> bool {
        x == 0 || y == 0 || x == self.w - 1 || y == self.h - 1
    }

    /// Row-major index of an in-bounds coordinate. Out-of-bounds
    /// arguments are a caller error, ruled out by the precondition.
    pub fn xy_idx(&self, x: usize, y: usize) -> (idx: usize)
        requires
            self.wf(),
            x < self.w,
            y < self.h,
        ensures
            idx == self.spec_idx(x as int, y as int),
            idx < self.tiles@.len(),
    {
        // reading the length pins w * h under the usize limit
        let n = self.tiles.len();
        proof {
            lemma_row_major_bounds(self.w as int, self.h as int, x as int, y as int);
            assert(x + self.w * y < n);
        }
        x + self.w * y
    }

    /// Reads the tile at an in-bounds coordinate.
    pub fn tile(&self, x: usize, y: usize) -> (t: TileType)
        requires
            self.wf(),
            x < self.w,
            y < self.h,
        ensures
            t == self.tile_at(x as int, y as int),
    {
        let idx = self.xy_idx(x, y);
        self.tiles[idx]
    }

    /// A wall blocks sight; a floor is transparent. This is the one
    /// occlusion predicate visibility consults.
    pub fn is_opaque(&self, x: usize, y: usize) -> (r: bool)
        requires
            self.wf(),
            x < self.w,
            y < self.h,
        ensures
            r == (self.tile_at(x as int, y as int) == TileType::Wall),
    {
        self.tile(x, y) == TileType::Wall
    }

    /// A floor can be walked on. This is the one collision predicate
    /// movement consults.
    pub fn is_walkable(&self, x: usize, y: usize) -> (r: bool)
        requires
            self.wf(),
            x < self.w,
            y < self.h,
        ensures
            r == (self.tile_at(x as int, y as int) == TileType::Floor),
    {
        self.tile(x, y) == TileType::Floor
    }

    /// Writes one tile, leaving every other cell and every other field
    /// unchanged.
    fn set_tile(&mut self, x: usize, y: usize, t: TileType)
        requires
            old(self).wf(),
            x < old(self).w,
            y < old(self).h,
        ensures
            final(self).wf(),
            final(self).w == old(self).w,
            final(self).h == old(self).h,
            final(self).revealed_tiles == old(self).revealed_tiles,
            final(self).rooms == old(self).rooms,
            final(self).tiles@ == old(self).tiles@.update(
                old(self).spec_idx(x as int, y as int),
                t,
            ),
            final(self).tile_at(x as int, y as int) == t,
            forall|xx: int, yy: int|
                old(self).in_bounds(xx, yy) && !(xx == x && yy == y)
                    ==> final(self).tile_at(xx, yy) == old(self).tile_at(xx, yy),
    {
        let idx = self.xy_idx(x, y);
        self.tiles[idx] = t;
        proof {
            assert forall|xx: int, yy: int|
                old(self).in_bounds(xx, yy) && !(xx == x && yy == y)
                implies self.tile_at(xx, yy) == old(self).tile_at(xx, yy) by {
                lemma_row_major_bounds(self.w as int, self.h as int, xx, yy);
                if self.spec_idx(xx, yy) == self.spec_idx(x as int, y as int) {
                    lemma_row_major_injective(
                        self.w as int, self.h as int, x as int, y as int, xx, yy);
                }
            }
        }
    }

    /// An all-wall grid of the given dimensions, nothing revealed, no
    /// rooms.
    pub fn new(w: usize, h: usize) -> (m: GameMap)
        requires
            1 <= w <= i32::MAX,
            1 <= h <= i32::MAX,
            w * h <= usize::MAX,
        ensures
            m.wf(),
            m.w == w,
            m.h == h,
            m.rooms@.len() == 0,
            forall|x: int, y: int| m.in_bounds(x, y) ==> m.tile_at(x, y) == TileType::Wall,
            forall|x: int, y: int| m.in_bounds(x, y) ==> !m.revealed_at(x, y),
    {
        let n = w * h;
        let tiles = filled_tiles(n, TileType::Wall);
        let revealed_tiles = filled_flags(n);
        let m = GameMap { w, h, tiles, revealed_tiles, rooms: Vec::new() };
        proof {
            assert forall|x: int, y: int| m.in_bounds(x, y)
                implies m.tile_at(x, y) == TileType::Wall && !m.revealed_at(x, y) by {
                lemma_row_major_bounds(w as int, h as int, x, y);
            }
        }
        m
    }

    /// Forces every cell on the outermost rows and columns to `Wall`,
    /// leaving interior cells as they were.
    #[verifier::loop_isolation(false)]
    fn draw_borders(&mut self)
        requires
            old(self).wf(),
        ensures
            final(self).wf(),
            final(self).w == old(self).w,
            final(self).h == old(self).h,
            final(self).revealed_tiles == old(self).revealed_tiles,
            final(self).rooms == old(self).rooms,
            forall|x: int, y: int|
                final(self).in_bounds(x, y) ==> final(self).tile_at(x, y) == (
                    if final(self).is_border(x, y) { TileType::Wall }
                    else { old(self).tile_at(x, y) }
                ),
    {
        let ghost m0 = *old(self);
        let w = self.w;
        let h = self.h;
        let mut x: usize = 0;
        while x < w
            invariant
                self.wf(),
                self.w == m0.w,
                self.h == m0.h,
                self.revealed_tiles == m0.revealed_tiles,
                self.rooms == m0.rooms,
                w == m0.w,
                h == m0.h,
                x <= w,
                forall|xx: int, yy: int|
                    self.in_bounds(xx, yy) && !(xx < x && (yy == 0 || yy == h - 1))
                        ==> self.tile_at(xx, yy) == m0.tile_at(xx, yy),
                forall|xx: int|
                    0 <= xx < x ==> self.tile_at(xx, 0) == TileType::Wall
                        && self.tile_at(xx, h - 1) == TileType::Wall,
            decreases w - x,
        {
            self.set_tile(x, 0, TileType::Wall);
            self.set_tile(x, h - 1, TileType::Wall);
            x += 1;
        }
        let mut y: usize = 0;
        while y < h
            invariant
                self.wf(),
                self.w == m0.w,
                self.h == m0.h,
                self.revealed_tiles == m0.revealed_tiles,
                self.rooms == m0.rooms,
                w == m0.w,
                h == m0.h,
                y <= h,
                forall|xx: int, yy: int|
                    self.in_bounds(xx, yy) && !((xx == 0 || xx == w - 1) && yy < y)
                        && !(yy == 0 || yy == h - 1)
                        ==> self.tile_at(xx, yy) == m0.tile_at(xx, yy),
                forall|xx: int|
                    0 <= xx < w ==> self.tile_at(xx, 0) == TileType::Wall
                        && self.tile_at(xx, h - 1) == TileType::Wall,
                forall|yy: int|
                    0 <= yy < y ==> self.tile_at(0, yy) == TileType::Wall
                        && self.tile_at(w - 1, yy) == TileType::Wall,
            decreases h - y,
        {
            self.set_tile(0, y, TileType::Wall);
            self.set_tile(w - 1, y, TileType::Wall);
            y += 1;
        }
        proof {
            assert forall|xx: int, yy: int| self.in_bounds(xx, yy)
                implies self.tile_at(xx, yy) == (
                    if self.is_border(xx, yy) { TileType::Wall }
                    else { m0.tile_at(xx, yy) }
                ) by {
                if xx == 0 || xx == w - 1 {
                    assert(self.tile_at(0, yy) == TileType::Wall);
                    assert(self.tile_at(w - 1, yy) == TileType::Wall);
                } else if yy == 0 || yy == h - 1 {
                    assert(self.tile_at(xx, 0) == TileType::Wall);
                    assert(self.tile_at(xx, h - 1) == TileType::Wall);
                }
            }
        }
    }
}

/// `0 <= x < w` and `0 <= y < h` put the row-major index inside a grid
/// of `w * h` cells.
pub proof fn lemma_row_major_bounds(w: int, h: int, x: int, y: int)
    requires
        0 <= x < w,
        0 <= y < h,
    ensures
        0 <= x + w * y < w * h,
{
    assert(0 <= x + w * y < w * h) by (nonlinear_arith)
        requires
            0 <= x < w,
            0 <= y < h,
    {}
}

/// Distinct in-bounds coordinates get distinct row-major indices.
pub proof fn lemma_row_major_injective(w: int, h: int, x1: int, y1: int, x2: int, y2: int)
    requires
        0 <= x1 < w,
        0 <= y1 < h,
        0 <= x2 < w,
        0 <= y2 < h,
        x1 + w * y1 == x2 + w * y2,
    ensures
        x1 == x2 && y1 == y2,
{
    assert(x1 == x2 && y1 == y2) by (nonlinear_arith)
        requires
            0 <= x1 < w,
            0 <= y1 < h,
            0 <= x2 < w,
            0 <= y2 < h,
            x1 + w * y1 == x2 + w * y2,
    {}
}

/// A vector of `n` copies of one tile.
fn filled_tiles(n: usize, t: TileType) -> (v: Vec<TileType>)
    ensures
        v@.len() == n,
        forall|i: int| 0 <= i < n ==> v@[i] == t,
{
    let mut v: Vec<TileType> = Vec::new();
    let mut i: usize = 0;
    while i < n
        invariant
            i <= n,
            v@.len() == i,
            forall|j: int| 0 <= j < i ==> v@[j] == t,
        decreases n - i,
    {
        v.push(t);
        i += 1;
    }
    v
}

/// A vector of `n` cleared flags.
fn filled_flags(n: usize) -> (v: Vec<bool>)
    ensures
        v@.len() == n,
        forall|i: int| 0 <= i < n ==> !v@[i],
{
    let mut v: Vec<bool> = Vec::new();
    let mut i: usize = 0;
    while i < n
        invariant
            i <= n,
            v@.len() == i,
            forall|j: int| 0 <= j < i ==> !v@[j],
        decreases n - i,
    {
        v.push(false);
        i += 1;
    }
    v
}

/// An axis-aligned room: top-left corner, width and height. The
/// bottom-right corner is exclusive, so the interior is the half-open
/// box `[tl.x, tl.x + w) x [tl.y, tl.y + h)`.
pub struct Room {
    pub tl: Pos,
    pub w: usize,
    pub h: usize,
}

impl Room {
    /// The room's extent stays inside the `i32` coordinate space.
    pub open spec fn wf(self) -> bool {
        &&& self.w <= i32::MAX
        &&& self.h <= i32::MAX
        &&& self.tl.x + self.w <= i32::MAX
        &&& self.tl.y + self.h <= i32::MAX
    }

    pub open spec fn brx(self) -> int {
        self.tl.x + self.w
    }

    pub open spec fn bry(self) -> int {
        self.tl.y + self.h
    }

    pub open spec fn cx(self) -> int {
        self.tl.x + self.w as int / 2
    }

    pub open spec fn cy(self) -> int {
        self.tl.y + self.h as int / 2
    }

    /// The cell `(x, y)` lies in the room's interior.
    pub open spec fn contains(self, x: int, y: int) -> bool {
        self.tl.x <= x < self.brx() && self.tl.y <= y < self.bry()
    }

    /// Two rooms overlap when their half-open x-intervals and their
    /// half-open y-intervals both intersect; rooms with the same
    /// top-left corner always count as overlapping.
    pub open spec fn spec_overlaps(self, other: Room) -> bool {
        ||| self.tl == other.tl
        ||| (self.tl.x < other.brx() && other.tl.x < self.brx()
            && self.tl.y < other.bry() && other.tl.y < self.bry())
    }

    /// The exclusive bottom-right corner.
    pub fn br(&self) -> (p: Pos)
        requires
            self.wf(),
        ensures
            p.x == self.brx(),
            p.y == self.bry(),
    {
        Pos { x: self.tl.x + self.w as i32, y: self.tl.y + self.h as i32 }
    }

    /// The room's center cell.
    pub fn center_pos(&self) -> (p: Pos)
        requires
            self.wf(),
        ensures
            p.x == self.cx(),
            p.y == self.cy(),
    {
        Pos { x: self.tl.x + (self.w / 2) as i32, y: self.tl.y + (self.h / 2) as i32 }
    }

    /// Decides `spec_overlaps`, with the identical-corner case tested
    /// first on its own.
    pub fn overlaps(&self, other: &Room) -> (r: bool)
        requires
            self.wf(),
            other.wf(),
        ensures
            r == self.spec_overlaps(*other),
    {
        if self.tl == other.tl {
            return true;
        }
        let x_axis_overlap = (self.tl.x as i64) < other.tl.x as i64 + other.w as i64
            && (other.tl.x as i64) < self.tl.x as i64 + self.w as i64;
        if !x_axis_overlap {
            return false;
        }
        let y_axis_overlap = (self.tl.y as i64) < other.tl.y as i64 + other.h as i64
            && (other.tl.y as i64) < self.tl.y as i64 + self.h as i64;
        x_axis_overlap && y_axis_overlap
    }

    /// The L-shaped corridor from this room's center to the other's:
    /// horizontal leg first, then vertical, excluding the starting
    /// center itself.
    #[verifier::loop_isolation(false)]
    pub fn connecting_path(&self, other: &Room) -> (path: Vec<Pos>)
        requires
            self.wf(),
            other.wf(),
        ensures
            path@.len() == lpath_len(self.cx(), self.cy(), other.cx(), other.cy()),
            forall|k: int| 0 <= k < path@.len()
                ==> path@[k].x == lpath_x(self.cx(), self.cy(), other.cx(), other.cy(), k)
                    && path@[k].y == lpath_y(self.cx(), self.cy(), other.cx(), other.cy(), k),
    {
        let ghost ax = self.cx();
        let ghost ay = self.cy();
        let ghost bx = other.cx();
        let ghost by = other.cy();
        let mut p = self.center_pos();
        let dest = other.center_pos();
        let mut path: Vec<Pos> = Vec::new();

        let x_step: i32 = if dest.x > p.x { 1 } else { -1 };
        while p.x != dest.x
            invariant
                p.y == ay,
                path@.len() <= iabs(bx - ax),
                p.x == ax + sgn(bx - ax) * path@.len(),
                bx != ax ==> x_step == sgn(bx - ax),
                forall|k: int| 0 <= k < path@.len()
                    ==> path@[k].x == lpath_x(ax, ay, bx, by, k)
                        && path@[k].y == lpath_y(ax, ay, bx, by, k),
            decreases iabs(bx - ax) - path@.len(),
        {
            proof {
                let k = path@.len() as int;
                lemma_sgn_iabs(bx - ax);
                lemma_sgn_mul(bx - ax, k);
                lemma_sgn_mul(bx - ax, k + 1);
                assert(k < iabs(bx - ax));
            }
            p.x += x_step;
            path.push(p);
        }

        proof {
            lemma_sgn_iabs(bx - ax);
            lemma_sgn_mul(bx - ax, path@.len() as int);
            assert(path@.len() == iabs(bx - ax));
        }

        let y_step: i32 = if dest.y > p.y { 1 } else { -1 };
        while p.y != dest.y
            invariant
                p.x == bx,
                iabs(bx - ax) <= path@.len(),
                path@.len() <= lpath_len(ax, ay, bx, by),
                p.y == ay + sgn(by - ay) * (path@.len() - iabs(bx - ax)),
                by != ay ==> y_step == sgn(by - ay),
                forall|k: int| 0 <= k < path@.len()
                    ==> path@[k].x == lpath_x(ax, ay, bx, by, k)
                        && path@[k].y == lpath_y(ax, ay, bx, by, k),
            decreases lpath_len(ax, ay, bx, by) - path@.len(),
        {
            proof {
                let j = path@.len() - iabs(bx - ax);
                lemma_sgn_iabs(by - ay);
                lemma_sgn_mul(by - ay, j);
                lemma_sgn_mul(by - ay, j + 1);
                assert(j < iabs(by - ay));
            }
            p.y += y_step;
            path.push(p);
        }

        proof {
            lemma_sgn_iabs(by - ay);
            lemma_sgn_mul(by - ay, path@.len() - iabs(bx - ax));
            assert(path@.len() == lpath_len(ax, ay, bx, by));
        }
        path
    }
}

/// Overlapping is mutual.
pub proof fn lemma_overlaps_symmetric(a: Room, b: Room)
    ensures
        a.spec_overlaps(b) == b.spec_overlaps(a),
{
}

/// Two rooms that share a top-left corner always overlap, whatever
/// their sizes.
pub proof fn lemma_identical_corner_overlaps(a: Room, b: Room)
    requires
        a.tl == b.tl,
    ensures
        a.spec_overlaps(b),
{
}

/// A well-formed map carries exactly one tile per cell, and each one
/// is a wall or a floor — there is no third kind of terrain.
pub proof fn lemma_tiles_total(m: GameMap)
    requires
        m.wf(),
    ensures
        m.tiles@.len() == m.w * m.h,
        forall|x: int, y: int|
            m.in_bounds(x, y) ==> (#[trigger] m.tile_at(x, y)) == TileType::Wall
                || m.tile_at(x, y) == TileType::Floor,
{
}

/// Some cell among the first `n` of `s` sits at `(x, y)`.
pub open spec fn pos_on_prefix(s: Seq<Pos>, n: int, x: int, y: int) -> bool {
    exists|k: int| 0 <= k < n && s[k].x == x && s[k].y == y
}

/// The room sits strictly inside a `w * h` grid, off the border, with
/// both sides inside the sampled size range.
pub open spec fn room_within(r: Room, w: int, h: int) -> bool {
    &&& r.wf()
    &&& 1 <= r.tl.x
    &&& 1 <= r.tl.y
    &&& r.brx() < w
    &&& r.bry() < h
    &&& ROOM_MIN_SIZE <= r.w < ROOM_MAX_SIZE
    &&& ROOM_MIN_SIZE <= r.h < ROOM_MAX_SIZE
}

pub open spec fn rooms_within(rs: Seq<Room>, w: int, h: int) -> bool {
    forall|i: int| 0 <= i < rs.len() ==> room_within(#[trigger] rs[i], w, h)
}

/// No two distinct accepted rooms overlap.
pub open spec fn rooms_disjoint(rs: Seq<Room>) -> bool {
    forall|i: int, j: int|
        0 <= i < j < rs.len() ==> !(#[trigger] rs[i]).spec_overlaps(#[trigger] rs[j])
}

impl GameMap {
    /// Every cell of the room's interior has been carved to floor.
    pub open spec fn room_carved(self, r: Room) -> bool {
        forall|x: int, y: int| r.contains(x, y) ==> self.tile_at(x, y) == TileType::Floor
    }

    /// Every cell of the L-shaped corridor between the two rooms'
    /// centers has been carved to floor.
    pub open spec fn corridor_carved(self, a: Room, b: Room) -> bool {
        forall|k: int|
            0 <= k < lpath_len(a.cx(), a.cy(), b.cx(), b.cy())
                ==> self.tile_at(
                    #[trigger] lpath_x(a.cx(), a.cy(), b.cx(), b.cy(), k),
                    lpath_y(a.cx(), a.cy(), b.cx(), b.cy(), k),
                ) == TileType::Floor
    }

    /// What `new_with_rooms` owes of a map it exposes: at least one
    /// room; rooms inside the grid and pairwise disjoint; every room
    /// interior and every corridor between consecutive rooms carved to
    /// floor; the outermost rows and columns still wall.
    pub open spec fn valid_dungeon(self) -> bool {
        &&& self.wf()
        &&& 1 <= self.rooms@.len() <= NROOMS
        &&& rooms_within(self.rooms@, self.w as int, self.h as int)
        &&& rooms_disjoint(self.rooms@)
        &&& forall|i: int| 0 <= i < self.rooms@.len() ==> self.room_carved(#[trigger] self.rooms@[i])
        &&& forall|i: int|
            0 <= i && i + 1 < self.rooms@.len()
                ==> self.corridor_carved(#[trigger] self.rooms@[i], self.rooms@[i + 1])
        &&& forall|x: int, y: int|
            self.in_bounds(x, y) && self.is_border(x, y)
                ==> self.tile_at(x, y) == TileType::Wall
    }

    /// Carves one room's interior to floor, touching nothing else.
    #[verifier::loop_isolation(false)]
    fn carve_room(&mut self, room: &Room)
        requires
            old(self).wf(),
            room.wf(),
            0 <= room.tl.x,
            0 <= room.tl.y,
            room.brx() <= old(self).w,
            room.bry() <= old(self).h,
        ensures
            final(self).wf(),
            final(self).w == old(self).w,
            final(self).h == old(self).h,
            final(self).revealed_tiles == old(self).revealed_tiles,
            final(self).rooms == old(self).rooms,
            forall|x: int, y: int|
                final(self).in_bounds(x, y) ==> final(self).tile_at(x, y) == (
                    if room.contains(x, y) { TileType::Floor }
                    else { old(self).tile_at(x, y) }
                ),
    {
        let ghost m0 = *old(self);
        let tlx = room.tl.x as usize;
        let tly = room.tl.y as usize;
        let br = room.br();
        let brx = br.x as usize;
        let bry = br.y as usize;
        let mut x = tlx;
        while x < brx
            invariant
                tlx <= x <= brx,
                self.wf(),
                self.w == m0.w,
                self.h == m0.h,
                self.revealed_tiles == m0.revealed_tiles,
                self.rooms == m0.rooms,
                forall|xx: int, yy: int|
                    self.in_bounds(xx, yy) ==> self.tile_at(xx, yy) == (
                        if room.contains(xx, yy) && xx < x { TileType::Floor }
                        else { m0.tile_at(xx, yy) }
                    ),
            decreases brx - x,
        {
            let mut y = tly;
            while y < bry
                invariant
                    tlx <= x < brx,
                    tly <= y <= bry,
                    self.wf(),
                    self.w == m0.w,
                    self.h == m0.h,
                    self.revealed_tiles == m0.revealed_tiles,
                    self.rooms == m0.rooms,
                    forall|xx: int, yy: int|
                        self.in_bounds(xx, yy) ==> self.tile_at(xx, yy) == (
                            if room.contains(xx, yy) && (xx < x || (xx == x && yy < y)) {
                                TileType::Floor
                            } else {
                                m0.tile_at(xx, yy)
                            }
                        ),
                decreases bry - y,
            {
                self.set_tile(x, y, TileType::Floor);
                y += 1;
            }
            x += 1;
        }
    }

    /// Carves every listed cell to floor, touching nothing else.
    #[verifier::loop_isolation(false)]
    fn carve_path(&mut self, cells: &Vec<Pos>)
        requires
            old(self).wf(),
            forall|k: int|
                0 <= k < cells@.len()
                    ==> old(self).in_bounds((#[trigger] cells@[k]).x as int, cells@[k].y as int),
        ensures
            final(self).wf(),
            final(self).w == old(self).w,
            final(self).h == old(self).h,
            final(self).revealed_tiles == old(self).revealed_tiles,
            final(self).rooms == old(self).rooms,
            forall|x: int, y: int|
                final(self).in_bounds(x, y) ==> final(self).tile_at(x, y) == (
                    if pos_on_prefix(cells@, cells@.len() as int, x, y) { TileType::Floor }
                    else { old(self).tile_at(x, y) }
                ),
    {
        let ghost m0 = *old(self);
        let mut i: usize = 0;
        while i < cells.len()
            invariant
                i <= cells@.len(),
                self.wf(),
                self.w == m0.w,
                self.h == m0.h,
                self.revealed_tiles == m0.revealed_tiles,
                self.rooms == m0.rooms,
                forall|x: int, y: int|
                    self.in_bounds(x, y) ==> self.tile_at(x, y) == (
                        if pos_on_prefix(cells@, i as int, x, y) { TileType::Floor }
                        else { m0.tile_at(x, y) }
                    ),
            decreases cells@.len() - i,
        {
            let p = cells[i];
            self.set_tile(p.x as usize, p.y as usize, TileType::Floor);
            i += 1;
        }
    }

    /// Samples candidate rooms until the target count is accepted or
    /// the attempt budget runs out. A candidate whose bottom-right
    /// corner leaves the grid, or which overlaps an accepted room, is
    /// rejected; fewer rooms than the target — even none — is a valid
    /// outcome here.
    #[verifier::loop_isolation(false)]
    fn place_rooms(w: usize, h: usize, rng: &mut rltk::RandomNumberGenerator) -> (rooms: Vec<Room>)
        requires
            9 <= w <= i32::MAX,
            9 <= h <= i32::MAX,
        ensures
            rooms@.len() <= NROOMS,
            rooms_within(rooms@, w as int, h as int),
            rooms_disjoint(rooms@),
    {
        let mut gen_attempts: u32 = 0;
        let mut rooms: Vec<Room> = Vec::new();
        while rooms.len() < NROOMS && gen_attempts < GEN_ATTEMPT_BUDGET
            invariant
                gen_attempts <= GEN_ATTEMPT_BUDGET,
                rooms@.len() <= NROOMS,
                rooms_within(rooms@, w as int, h as int),
                rooms_disjoint(rooms@),
            decreases GEN_ATTEMPT_BUDGET - gen_attempts,
        {
            let tlx = rng_range(rng, 1, w as i32 - (ROOM_MIN_SIZE as i32));
            let tly = rng_range(rng, 1, h as i32 - (ROOM_MIN_SIZE as i32));
            let rw = rng_range(rng, ROOM_MIN_SIZE as i32, ROOM_MAX_SIZE as i32);
            let rh = rng_range(rng, ROOM_MIN_SIZE as i32, ROOM_MAX_SIZE as i32);
            gen_attempts += 1;

            let fits = (tlx as i64) + (rw as i64) < w as i64
                && (tly as i64) + (rh as i64) < h as i64;
            if fits {
                let room_candidate = Room {
                    tl: Pos { x: tlx, y: tly },
                    w: rw as usize,
                    h: rh as usize,
                };
                let mut overlaps_any = false;
                let mut j: usize = 0;
                while j < rooms.len() && !overlaps_any
                    invariant
                        j <= rooms@.len(),
                        room_candidate.wf(),
                        !overlaps_any ==> forall|jj: int|
                            0 <= jj < j ==> !room_candidate.spec_overlaps(#[trigger] rooms@[jj]),
                    decreases rooms@.len() - j,
                {
                    if room_candidate.overlaps(&rooms[j]) {
                        overlaps_any = true;
                    }
                    j += 1;
                }
                if !overlaps_any {
                    proof {
                        assert forall|jj: int| 0 <= jj < rooms@.len()
                            implies !(#[trigger] rooms@[jj]).spec_overlaps(room_candidate) by {
                            lemma_overlaps_symmetric(rooms@[jj], room_candidate);
                        }
                    }
                    rooms.push(room_candidate);
                }
            }
        }
        rooms
    }

    /// Carves every listed room's interior to floor, changing interior
    /// cells only.
    #[verifier::loop_isolation(false)]
    fn carve_rooms(&mut self, rooms: &Vec<Room>)
        requires
            old(self).wf(),
            rooms_within(rooms@, old(self).w as int, old(self).h as int),
        ensures
            final(self).wf(),
            final(self).w == old(self).w,
            final(self).h == old(self).h,
            final(self).revealed_tiles == old(self).revealed_tiles,
            final(self).rooms == old(self).rooms,
            forall|j: int| #![trigger rooms@[j]]
                0 <= j < rooms@.len() ==> final(self).room_carved(rooms@[j]),
            forall|x: int, y: int|
                #![trigger final(self).tile_at(x, y)]
                final(self).in_bounds(x, y)
                    && final(self).tile_at(x, y) != old(self).tile_at(x, y)
                    ==> final(self).tile_at(x, y) == TileType::Floor
                        && 1 <= x < final(self).w - 1 && 1 <= y < final(self).h - 1,
    {
        let ghost m0 = *old(self);
        let mut i: usize = 0;
        while i < rooms.len()
            invariant
                i <= rooms@.len(),
                self.wf(),
                self.w == m0.w,
                self.h == m0.h,
                self.revealed_tiles == m0.revealed_tiles,
                self.rooms == m0.rooms,
                forall|j: int| #![trigger rooms@[j]] 0 <= j < i ==> self.room_carved(rooms@[j]),
                forall|x: int, y: int|
                    #![trigger self.tile_at(x, y)]
                    self.in_bounds(x, y) && self.tile_at(x, y) != m0.tile_at(x, y)
                        ==> self.tile_at(x, y) == TileType::Floor
                            && 1 <= x < self.w - 1 && 1 <= y < self.h - 1,
            decreases rooms@.len() - i,
        {
            self.carve_room(&rooms[i]);
            i += 1;
        }
    }

    /// Carves the L-shaped corridor between each consecutive pair of
    /// rooms, changing inner cells only and never un-carving a floor.
    #[verifier::loop_isolation(false)]
    fn carve_corridors(&mut self, rooms: &Vec<Room>)
        requires
            old(self).wf(),
            rooms_within(rooms@, old(self).w as int, old(self).h as int),
        ensures
            final(self).wf(),
            final(self).w == old(self).w,
            final(self).h == old(self).h,
            final(self).revealed_tiles == old(self).revealed_tiles,
            final(self).rooms == old(self).rooms,
            forall|x: int, y: int|
                #![trigger final(self).tile_at(x, y)]
                final(self).in_bounds(x, y) && old(self).tile_at(x, y) == TileType::Floor
                    ==> final(self).tile_at(x, y) == TileType::Floor,
            forall|j: int| #![trigger rooms@[j]]
                0 <= j && j + 1 < rooms@.len()
                    ==> final(self).corridor_carved(rooms@[j], rooms@[j + 1]),
            forall|x: int, y: int|
                #![trigger final(self).tile_at(x, y)]
                final(self).in_bounds(x, y)
                    && final(self).tile_at(x, y) != old(self).tile_at(x, y)
                    ==> final(self).tile_at(x, y) == TileType::Floor
                        && 1 <= x < final(self).w - 1 && 1 <= y < final(self).h - 1,
    {
        let ghost m0 = *old(self);
        let mut i: usize = 1;
        while i < rooms.len()
            invariant
                1 <= i,
                i <= rooms@.len() || i == 1,
                self.wf(),
                self.w == m0.w,
                self.h == m0.h,
                self.revealed_tiles == m0.revealed_tiles,
                self.rooms == m0.rooms,
                forall|x: int, y: int|
                    #![trigger self.tile_at(x, y)]
                    self.in_bounds(x, y) && m0.tile_at(x, y) == TileType::Floor
                        ==> self.tile_at(x, y) == TileType::Floor,
                forall|j: int| #![trigger rooms@[j]]
                    0 <= j && j + 1 < i ==> self.corridor_carved(rooms@[j], rooms@[j + 1]),
                forall|x: int, y: int|
                    #![trigger self.tile_at(x, y)]
                    self.in_bounds(x, y) && self.tile_at(x, y) != m0.tile_at(x, y)
                        ==> self.tile_at(x, y) == TileType::Floor
                            && 1 <= x < self.w - 1 && 1 <= y < self.h - 1,
            decreases rooms@.len() - i,
        {
            let path = rooms[i - 1].connecting_path(&rooms[i]);
            proof {
                let a = rooms@[i as int - 1];
                let b = rooms@[i as int];
                assert forall|k: int| 0 <= k < path@.len()
                    implies self.in_bounds((#[trigger] path@[k]).x as int, path@[k].y as int) by {
                    lemma_lpath_in_box(a.cx(), a.cy(), b.cx(), b.cy(), k);
                }
            }
            let ghost prev = *self;
            self.carve_path(&path);
            proof {
                let a = rooms@[i as int - 1];
                let b = rooms@[i as int];
                assert forall|k: int|
                    0 <= k < lpath_len(a.cx(), a.cy(), b.cx(), b.cy())
                    implies self.tile_at(
                        #[trigger] lpath_x(a.cx(), a.cy(), b.cx(), b.cy(), k),
                        lpath_y(a.cx(), a.cy(), b.cx(), b.cy(), k),
                    ) == TileType::Floor by {
                    assert(path@[k].x == lpath_x(a.cx(), a.cy(), b.cx(), b.cy(), k));
                    assert(pos_on_prefix(path@, path@.len() as int, path@[k].x as int,
                        path@[k].y as int));
                }
                assert forall|x: int, y: int|
                    #![trigger self.tile_at(x, y)]
                    self.in_bounds(x, y) && self.tile_at(x, y) != m0.tile_at(x, y)
                    implies self.tile_at(x, y) == TileType::Floor
                        && 1 <= x < self.w - 1 && 1 <= y < self.h - 1 by {
                    if self.tile_at(x, y) != prev.tile_at(x, y) {
                        assert(pos_on_prefix(path@, path@.len() as int, x, y));
                        let k = choose|k: int|
                            0 <= k < path@.len() && path@[k].x == x && path@[k].y == y;
                        lemma_lpath_in_box(a.cx(), a.cy(), b.cx(), b.cy(), k);
                        assert(room_within(a, self.w as int, self.h as int));
                        assert(room_within(b, self.w as int, self.h as int));
                    }
                }
            }
            i += 1;
        }
    }


    /// Rebuilds the room list and carves it into the grid: sampled
    /// placement, then every accepted interior, then an L-shaped
    /// corridor between each consecutive pair of accepted rooms.
    #[verifier::loop_isolation(false)]
    #[verifier::rlimit(60)]
    pub fn generate_rooms(&mut self, rng: &mut rltk::RandomNumberGenerator)
        requires
            old(self).wf(),
            9 <= old(self).w,
            9 <= old(self).h,
        ensures
            final(self).wf(),
            final(self).w == old(self).w,
            final(self).h == old(self).h,
            final(self).revealed_tiles == old(self).revealed_tiles,
            final(self).rooms@.len() <= NROOMS,
            rooms_within(final(self).rooms@, final(self).w as int, final(self).h as int),
            rooms_disjoint(final(self).rooms@),
            forall|i: int|
                0 <= i < final(self).rooms@.len()
                    ==> final(self).room_carved(#[trigger] final(self).rooms@[i]),
            forall|i: int|
                0 <= i && i + 1 < final(self).rooms@.len()
                    ==> final(self).corridor_carved(
                        #[trigger] final(self).rooms@[i],
                        final(self).rooms@[i + 1],
                    ),
            forall|x: int, y: int|
                #![trigger final(self).tile_at(x, y)]
                final(self).in_bounds(x, y)
                    && final(self).tile_at(x, y) != old(self).tile_at(x, y)
                    ==> final(self).tile_at(x, y) == TileType::Floor
                        && 1 <= x < final(self).w - 1 && 1 <= y < final(self).h - 1,
    {
        let ghost m0 = *old(self);
        let rooms = Self::place_rooms(self.w, self.h, rng);
        self.carve_rooms(&rooms);
        let ghost mid = *self;
        self.carve_corridors(&rooms);
        let ghost cur = *self;
        let ghost rs = rooms@;
        proof {
            assert forall|x: int, y: int|
                #![trigger cur.tile_at(x, y)]
                cur.in_bounds(x, y) && cur.tile_at(x, y) != m0.tile_at(x, y)
                implies cur.tile_at(x, y) == TileType::Floor
                    && 1 <= x < cur.w - 1 && 1 <= y < cur.h - 1 by {
                assert(mid.in_bounds(x, y));
                if cur.tile_at(x, y) == mid.tile_at(x, y) {
                    assert(mid.tile_at(x, y) != m0.tile_at(x, y));
                }
            }
            assert forall|j: int| #![trigger rs[j]] 0 <= j < rs.len()
                implies cur.room_carved(rs[j]) by {
                assert(rs[j] == rooms@[j]);
                assert(mid.room_carved(rooms@[j]));
                let a = rs[j];
                assert forall|x: int, y: int| a.contains(x, y)
                    implies cur.tile_at(x, y) == TileType::Floor by {
                    assert(mid.tile_at(x, y) == TileType::Floor);
                    assert(mid.in_bounds(x, y));
                }
            }
            assert forall|j: int| #![trigger rs[j]] 0 <= j && j + 1 < rs.len()
                implies cur.corridor_carved(rs[j], rs[j + 1]) by {
                assert(rs[j] == rooms@[j]);
                assert(rs[j + 1] == rooms@[j + 1]);
                assert(cur.corridor_carved(rooms@[j], rooms@[j + 1]));
            }
        }
        self.rooms = rooms;
        proof {
            assert(self.rooms@ == rs);
            assert(self.tiles == cur.tiles && self.w == cur.w && self.h == cur.h);
            assert forall|x: int, y: int|
                #![trigger self.tile_at(x, y)]
                self.in_bounds(x, y) && self.tile_at(x, y) != m0.tile_at(x, y)
                implies self.tile_at(x, y) == TileType::Floor
                    && 1 <= x < self.w - 1 && 1 <= y < self.h - 1 by {
                assert(cur.in_bounds(x, y));
                assert(cur.tile_at(x, y) == self.tile_at(x, y));
            }
            assert forall|j: int| #![trigger self.rooms@[j]] 0 <= j < self.rooms@.len()
                implies self.room_carved(self.rooms@[j]) by {
                assert(self.rooms@[j] == rs[j]);
                assert(cur.room_carved(rs[j]));
                let a = rs[j];
                assert forall|x: int, y: int| a.contains(x, y)
                    implies self.tile_at(x, y) == TileType::Floor by {
                    assert(cur.tile_at(x, y) == TileType::Floor);
                }
            }
            assert forall|j: int| #![trigger self.rooms@[j]] 0 <= j && j + 1 < self.rooms@.len()
                implies self.corridor_carved(self.rooms@[j], self.rooms@[j + 1]) by {
                assert(self.rooms@[j] == rs[j]);
                assert(self.rooms@[j + 1] == rs[j + 1]);
                let a = rs[j];
                let b = rs[j + 1];
                assert(cur.corridor_carved(a, b));
                assert forall|k: int| 0 <= k < lpath_len(a.cx(), a.cy(), b.cx(), b.cy())
                    implies self.tile_at(
                        #[trigger] lpath_x(a.cx(), a.cy(), b.cx(), b.cy(), k),
                        lpath_y(a.cx(), a.cy(), b.cx(), b.cy(), k),
                    ) == TileType::Floor by {
                    assert(cur.tile_at(
                        lpath_x(a.cx(), a.cy(), b.cx(), b.cy(), k),
                        lpath_y(a.cx(), a.cy(), b.cx(), b.cy(), k),
                    ) == TileType::Floor);
                }
            }
        }
    }

    /// A freshly generated dungeon: an all-wall 80 x 50 grid with
    /// sampled rooms carved in and corridors between consecutive rooms.
    /// Fails — exposing no map at all — only when not a single room was
    /// accepted within the attempt budget.
    pub fn new_with_rooms() -> (r: Result<GameMap, MapError>)
        ensures
            r is Ok ==> ({
                let m = r->Ok_0;
                &&& m.valid_dungeon()
                &&& m.w == 80
                &&& m.h == 50
                &&& forall|x: int, y: int| m.in_bounds(x, y) ==> !m.revealed_at(x, y)
            }),
            r is Err ==> r->Err_0 == MapError::GenerationFailure,
    {
        let mut m = GameMap::new(80, 50);
        let ghost fresh = m;
        let mut rng = rng_new();
        m.generate_rooms(&mut rng);
        proof {
            assert forall|x: int, y: int| #![trigger m.tile_at(x, y)]
                m.in_bounds(x, y) && m.tile_at(x, y) != fresh.tile_at(x, y)
                implies 1 <= x < m.w - 1 && 1 <= y < m.h - 1 by {
            }
            assert forall|x: int, y: int| m.in_bounds(x, y)
                implies !m.revealed_at(x, y) by {
                assert(fresh.in_bounds(x, y));
                assert(!fresh.revealed_at(x, y));
                assert(m.revealed_tiles == fresh.revealed_tiles);
            }
        }
        if m.rooms.len() == 0 {
            Err(MapError::GenerationFailure)
        } else {
            Ok(m)
        }
    }

    /// A quick 80 x 50 test arena: all floor, a wall border, and a
    /// sprinkling of random interior walls.
    #[verifier::loop_isolation(false)]
    pub fn new_simple() -> (m: GameMap)
        ensures
            m.wf(),
            m.w == 80,
            m.h == 50,
            m.rooms@.len() == 0,
            forall|x: int, y: int|
                m.in_bounds(x, y) && m.is_border(x, y) ==> m.tile_at(x, y) == TileType::Wall,
            forall|x: int, y: int| m.in_bounds(x, y) ==> !m.revealed_at(x, y),
    {
        let n: usize = 80 * 50;
        let tiles = filled_tiles(n, TileType::Floor);
        let revealed_tiles = filled_flags(n);
        let mut m = GameMap { w: 80, h: 50, tiles, revealed_tiles, rooms: Vec::new() };
        m.draw_borders();

        let mut rng = rng_new();
        let mut idx: usize = 0;
        while idx < n
            invariant
                m.wf(),
                m.w == 80,
                m.h == 50,
                m.rooms@.len() == 0,
                m.tiles@.len() == n,
                forall|x: int, y: int|
                    m.in_bounds(x, y) && m.is_border(x, y) ==> m.tile_at(x, y) == TileType::Wall,
                forall|j: int| 0 <= j < m.revealed_tiles@.len() ==> !m.revealed_tiles@[j],
            decreases n - idx,
        {
            if rng_range(&mut rng, 0, 9) == 0 {
                let x = idx % 80;
                let y = idx / 80;
                m.set_tile(x, y, TileType::Wall);
            }
            idx += 1;
        }
        proof {
            assert forall|x: int, y: int| m.in_bounds(x, y)
                implies !m.revealed_at(x, y) by {
                lemma_row_major_bounds(m.w as int, m.h as int, x, y);
            }
        }
        m
    }
}

} // verus!
