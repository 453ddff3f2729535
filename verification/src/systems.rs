use vstd::prelude::*;

use crate::components::Position;
use crate::components::Viewshed;
use crate::geometry::cheb;
use crate::geometry::line_x;
use crate::geometry::line_y;
use crate::map::GameMap;
use crate::map::Pos;
use crate::map::lemma_row_major_bounds;
use crate::map::lemma_row_major_injective;
use crate::map::pos_on_prefix;
use crate::visibility::compute_fov;
use crate::visibility::opaque_at;
use crate::visibility::visible_from;

verus! {

/// Visibility does not depend on the revealed state: two maps with the
/// same terrain agree on what an observer can see.
pub proof fn lemma_visible_same_terrain(
    m1: GameMap, m2: GameMap, ox: int, oy: int, x: int, y: int, range: int,
)
    requires
        m1.w == m2.w,
        m1.h == m2.h,
        m1.tiles == m2.tiles,
    ensures
        visible_from(m1, ox, oy, x, y, range) == visible_from(m2, ox, oy, x, y, range),
{
    assert forall|k: int| 0 < k < cheb(ox, oy, x, y)
        implies opaque_at(m1, #[trigger] line_x(ox, x, k), line_y(oy, y, k))
            == opaque_at(m2, line_x(ox, x, k), line_y(oy, y, k)) by {
    }
}

/// The tile `(x, y)` is revealed by this pass when some player-role
/// entity among the first `n`, whose viewshed was stale, can see it.
pub open spec fn newly_revealed(
    m0: GameMap, vs0: Seq<Viewshed>, ps: Seq<Position>, pl: Seq<bool>, n: int, x: int, y: int,
) -> bool {
    exists|e: int|
        0 <= e < n && pl[e] && vs0[e].dirty
            && visible_from(m0, (#[trigger] ps[e]).x as int, ps[e].y as int, x, y,
                vs0[e].range as int)
}

/// Admitting one more entity into the pass adds exactly that entity's
/// newly seen tiles (when it is a stale player) and nothing else.
proof fn lemma_newly_revealed_step(
    m0: GameMap, vs0: Seq<Viewshed>, ps: Seq<Position>, pl: Seq<bool>, e: int, x: int, y: int,
)
    requires
        0 <= e < vs0.len(),
    ensures
        newly_revealed(m0, vs0, ps, pl, e + 1, x, y) == (newly_revealed(m0, vs0, ps, pl, e, x, y)
            || (pl[e] && vs0[e].dirty
                && visible_from(m0, ps[e].x as int, ps[e].y as int, x, y, vs0[e].range as int))),
{
    if newly_revealed(m0, vs0, ps, pl, e + 1, x, y) {
        let w = choose|w: int|
            0 <= w < e + 1 && pl[w] && vs0[w].dirty
                && visible_from(m0, (#[trigger] ps[w]).x as int, ps[w].y as int, x, y,
                    vs0[w].range as int);
        if w < e {
            assert(newly_revealed(m0, vs0, ps, pl, e, x, y));
        }
    }
    if newly_revealed(m0, vs0, ps, pl, e, x, y) {
        let w = choose|w: int|
            0 <= w < e && pl[w] && vs0[w].dirty
                && visible_from(m0, (#[trigger] ps[w]).x as int, ps[w].y as int, x, y,
                    vs0[w].range as int);
        assert(0 <= w < e + 1);
        assert(newly_revealed(m0, vs0, ps, pl, e + 1, x, y));
    }
}

/// Raises one revealed flag, leaving every other cell and every other
/// field unchanged.
fn set_revealed(map: &mut GameMap, x: usize, y: usize)
    requires
        old(map).wf(),
        x < old(map).w,
        y < old(map).h,
    ensures
        final(map).wf(),
        final(map).w == old(map).w,
        final(map).h == old(map).h,
        final(map).tiles == old(map).tiles,
        final(map).rooms == old(map).rooms,
        final(map).revealed_at(x as int, y as int),
        forall|xx: int, yy: int|
            old(map).in_bounds(xx, yy) && !(xx == x && yy == y)
                ==> final(map).revealed_at(xx, yy) == old(map).revealed_at(xx, yy),
    {
        let idx = map.xy_idx(x, y);
        proof {
            assert(map.revealed_tiles@.len() == map.tiles@.len());
        }
        map.revealed_tiles[idx] = true;
        proof {
            assert forall|xx: int, yy: int|
                old(map).in_bounds(xx, yy) && !(xx == x && yy == y)
                implies final(map).revealed_at(xx, yy) == old(map).revealed_at(xx, yy) by {
                lemma_row_major_bounds(map.w as int, map.h as int, xx, yy);
                if map.spec_idx(xx, yy) == map.spec_idx(x as int, y as int) {
                    lemma_row_major_injective(
                        map.w as int, map.h as int, x as int, y as int, xx, yy);
                }
            }
        }
    }

/// Marks every listed cell revealed, touching nothing else. Revealed
/// flags only ever rise here: the record is cumulative.
#[verifier::loop_isolation(false)]
fn mark_revealed(map: &mut GameMap, cells: &Vec<Pos>)
    requires
        old(map).wf(),
        forall|k: int|
            0 <= k < cells@.len()
                ==> old(map).in_bounds((#[trigger] cells@[k]).x as int, cells@[k].y as int),
    ensures
        final(map).wf(),
        final(map).w == old(map).w,
        final(map).h == old(map).h,
        final(map).tiles == old(map).tiles,
        final(map).rooms == old(map).rooms,
        forall|x: int, y: int|
            #![trigger final(map).revealed_at(x, y)]
            final(map).in_bounds(x, y) ==> final(map).revealed_at(x, y) == (
                old(map).revealed_at(x, y)
                    || pos_on_prefix(cells@, cells@.len() as int, x, y)
            ),
{
    let ghost m0 = *old(map);
    let mut i: usize = 0;
    while i < cells.len()
        invariant
            i <= cells@.len(),
            map.wf(),
            map.w == m0.w,
            map.h == m0.h,
            map.tiles == m0.tiles,
            map.rooms == m0.rooms,
            forall|x: int, y: int|
                #![trigger map.revealed_at(x, y)]
                map.in_bounds(x, y) ==> map.revealed_at(x, y) == (
                    m0.revealed_at(x, y) || pos_on_prefix(cells@, i as int, x, y)
                ),
        decreases cells@.len() - i,
    {
        let p = cells[i];
        set_revealed(map, p.x as usize, p.y as usize);
        i += 1;
    }
}

/// Recomputes stale viewsheds against the map and, for the player
/// role, folds the fresh visibility into the cumulative revealed
/// record.
pub struct VisibilitySystem;

impl VisibilitySystem {
    /// One visibility pass over all entities, in index order. A clean
    /// viewshed is skipped — not recomputed, and the pass does not stop
    /// at it. A stale one is replaced by the exact set of cells visible
    /// from that entity's position and marked clean. Revealed flags
    /// change exactly where a stale player-role viewshed now sees: they
    /// never fall, so the revealed record grows monotonically.
    #[verifier::loop_isolation(false)]
    #[verifier::rlimit(60)]
    pub fn run(
        map: &mut GameMap,
        viewsheds: &mut Vec<Viewshed>,
        positions: &Vec<Position>,
        players: &Vec<bool>,
    )
        requires
            old(map).wf(),
            old(viewsheds)@.len() == positions@.len(),
            players@.len() == positions@.len(),
            forall|e: int|
                0 <= e < positions@.len()
                    ==> old(map).in_bounds((#[trigger] positions@[e]).x as int,
                        positions@[e].y as int),
            forall|e: int|
                0 <= e < old(viewsheds)@.len() ==> (#[trigger] old(viewsheds)@[e]).range >= 0,
        ensures
            final(map).wf(),
            final(map).w == old(map).w,
            final(map).h == old(map).h,
            final(map).tiles == old(map).tiles,
            final(map).rooms == old(map).rooms,
            final(viewsheds)@.len() == old(viewsheds)@.len(),
            forall|e: int|
                #![trigger final(viewsheds)@[e]]
                0 <= e < old(viewsheds)@.len() && !old(viewsheds)@[e].dirty
                    ==> final(viewsheds)@[e] == old(viewsheds)@[e],
            forall|e: int|
                #![trigger final(viewsheds)@[e]]
                0 <= e < old(viewsheds)@.len() && old(viewsheds)@[e].dirty
                    ==> ({
                        let vs = final(viewsheds)@[e];
                        &&& vs.range == old(viewsheds)@[e].range
                        &&& !vs.dirty
                        &&& forall|p: Pos|
                            #[trigger] vs.visible_tiles@.contains(p) <==> visible_from(
                                *old(map), positions@[e].x as int, positions@[e].y as int,
                                p.x as int, p.y as int, old(viewsheds)@[e].range as int)
                    }),
            forall|e: int|
                0 <= e < final(viewsheds)@.len() ==> !(#[trigger] final(viewsheds)@[e]).dirty,
            forall|x: int, y: int|
                #![trigger final(map).revealed_at(x, y)]
                old(map).in_bounds(x, y) ==> final(map).revealed_at(x, y) == (
                    old(map).revealed_at(x, y) || newly_revealed(*old(map), old(viewsheds)@,
                        positions@, players@, positions@.len() as int, x, y)
                ),
    {
        let ghost m0 = *old(map);
        let ghost vs0 = old(viewsheds)@;
        let mut e: usize = 0;
        while e < viewsheds.len()
            invariant
                e <= vs0.len(),
                viewsheds@.len() == vs0.len(),
                map.wf(),
                map.w == m0.w,
                map.h == m0.h,
                map.tiles == m0.tiles,
                map.rooms == m0.rooms,
                forall|j: int|
                    #![trigger viewsheds@[j]]
                    e <= j < vs0.len() ==> viewsheds@[j] == vs0[j],
                forall|j: int|
                    #![trigger viewsheds@[j]]
                    0 <= j < e && !vs0[j].dirty ==> viewsheds@[j] == vs0[j],
                forall|j: int|
                    #![trigger viewsheds@[j]]
                    0 <= j < e && vs0[j].dirty ==> ({
                        let vs = viewsheds@[j];
                        &&& vs.range == vs0[j].range
                        &&& !vs.dirty
                        &&& forall|p: Pos|
                            #[trigger] vs.visible_tiles@.contains(p) <==> visible_from(m0,
                                positions@[j].x as int, positions@[j].y as int,
                                p.x as int, p.y as int, vs0[j].range as int)
                    }),
                forall|x: int, y: int|
                    #![trigger map.revealed_at(x, y)]
                    m0.in_bounds(x, y) ==> map.revealed_at(x, y) == (
                        m0.revealed_at(x, y) || newly_revealed(m0, vs0, positions@, players@,
                            e as int, x, y)
                    ),
            decreases vs0.len() - e,
        {
            let dirty = viewsheds[e].dirty;
            if dirty {
                let p = positions[e];
                let range = viewsheds[e].range;
                let origin = Pos { x: p.x, y: p.y };
                let fov = compute_fov(map, origin, range);
                proof {
                    assert forall|q: Pos| #[trigger] fov@.contains(q)
                        <==> visible_from(m0, p.x as int, p.y as int, q.x as int, q.y as int,
                            range as int) by {
                        lemma_visible_same_terrain(*map, m0, p.x as int, p.y as int,
                            q.x as int, q.y as int, range as int);
                    }
                }
                if players[e] {
                    proof {
                        assert forall|k: int| 0 <= k < fov@.len()
                            implies map.in_bounds((#[trigger] fov@[k]).x as int,
                                fov@[k].y as int) by {
                            assert(fov@.contains(fov@[k]));
                        }
                    }
                    let ghost mprev = *map;
                    mark_revealed(map, &fov);
                    proof {
                        assert forall|x: int, y: int|
                            #![trigger map.revealed_at(x, y)]
                            m0.in_bounds(x, y)
                            implies map.revealed_at(x, y) == (
                                m0.revealed_at(x, y) || newly_revealed(m0, vs0, positions@,
                                    players@, e as int + 1, x, y)
                            ) by {
                            lemma_newly_revealed_step(m0, vs0, positions@, players@,
                                e as int, x, y);
                            if pos_on_prefix(fov@, fov@.len() as int, x, y) {
                                let k = choose|k: int|
                                    0 <= k < fov@.len() && fov@[k].x == x && fov@[k].y == y;
                                let q = fov@[k];
                                assert(fov@.contains(q));
                                assert(visible_from(m0, p.x as int, p.y as int, x, y,
                                    range as int));
                            }
                            if visible_from(m0, p.x as int, p.y as int, x, y, range as int) {
                                let q = (Pos { x: x as i32, y: y as i32 });
                                assert(q.x as int == x && q.y as int == y);
                                assert(fov@.contains(q));
                                let k = choose|k: int| 0 <= k < fov@.len() && fov@[k] == q;
                                assert(fov@[k].x == x && fov@[k].y == y);
                                assert(pos_on_prefix(fov@, fov@.len() as int, x, y));
                            }
                        }
                    }
                } else {
                    proof {
                        assert forall|x: int, y: int|
                            #![trigger map.revealed_at(x, y)]
                            m0.in_bounds(x, y)
                            implies map.revealed_at(x, y) == (
                                m0.revealed_at(x, y) || newly_revealed(m0, vs0, positions@,
                                    players@, e as int + 1, x, y)
                            ) by {
                            lemma_newly_revealed_step(m0, vs0, positions@, players@,
                                e as int, x, y);
                        }
                    }
                }
                viewsheds[e] = Viewshed { visible_tiles: fov, range, dirty: false };
            } else {
                proof {
                    assert forall|x: int, y: int|
                        #![trigger map.revealed_at(x, y)]
                        m0.in_bounds(x, y)
                        implies map.revealed_at(x, y) == (
                            m0.revealed_at(x, y) || newly_revealed(m0, vs0, positions@,
                                players@, e as int + 1, x, y)
                        ) by {
                        lemma_newly_revealed_step(m0, vs0, positions@, players@, e as int, x, y);
                    }
                }
            }
            e += 1;
        }
    }
}

/// Decides whether a vector of cells holds the given cell.
fn contains_pos(v: &Vec<Pos>, p: Pos) -> (r: bool)
    ensures
        r == v@.contains(p),
{
    let mut i: usize = 0;
    while i < v.len()
        invariant
            i <= v@.len(),
            forall|j: int| 0 <= j < i ==> v@[j] != p,
        decreases v@.len() - i,
    {
        if v[i] == p {
            return true;
        }
        i += 1;
    }
    false
}

/// Senses, for every monster-role entity, whether the player's cell is
/// in its viewshed.
pub struct MonsterAI;

impl MonsterAI {
    /// One sensing pass: entity `e`'s flag in the result is raised
    /// exactly when `e` is a monster whose viewshed holds the player's
    /// position. Run it after the visibility pass, so the viewsheds are
    /// current; it retains no state of its own.
    pub fn run(viewsheds: &Vec<Viewshed>, monsters: &Vec<bool>, player_pos: Position)
        -> (seen: Vec<bool>)
        requires
            viewsheds@.len() == monsters@.len(),
        ensures
            seen@.len() == viewsheds@.len(),
            forall|e: int|
                0 <= e < seen@.len() ==> seen@[e] == (monsters@[e]
                    && (#[trigger] viewsheds@[e]).visible_tiles@.contains(
                        (Pos { x: player_pos.x, y: player_pos.y }))),
    {
        let target = Pos { x: player_pos.x, y: player_pos.y };
        let mut seen: Vec<bool> = Vec::new();
        let mut e: usize = 0;
        while e < viewsheds.len()
            invariant
                e <= viewsheds@.len(),
                viewsheds@.len() == monsters@.len(),
                seen@.len() == e,
                forall|j: int|
                    #![trigger seen@[j]]
                    0 <= j < e ==> seen@[j] == (monsters@[j]
                        && viewsheds@[j].visible_tiles@.contains(target)),
            decreases viewsheds@.len() - e,
        {
            let is_monster = monsters[e];
            let in_sight = contains_pos(&viewsheds[e].visible_tiles, target);
            proof {
                assert(is_monster == monsters@[e as int]);
                assert(in_sight == viewsheds@[e as int].visible_tiles@.contains(target));
            }
            let sees = is_monster && in_sight;
            let ghost s0 = seen@;
            proof {
                assert forall|j: int| 0 <= j < e
                    implies s0[j] == (monsters@[j]
                        && (#[trigger] viewsheds@[j]).visible_tiles@.contains(target)) by {
                    assert(s0[j] == seen@[j]);
                }
            }
            seen.push(sees);
            proof {
                assert(seen@ == s0.push(sees));
                assert(seen@[e as int] == sees);
                assert forall|j: int| 0 <= j < e + 1
                    implies seen@[j] == (monsters@[j]
                        && (#[trigger] viewsheds@[j]).visible_tiles@.contains(target)) by {
                    if j < e {
                        assert(seen@[j] == s0[j]);
                        assert(s0[j] == (monsters@[j]
                            && viewsheds@[j].visible_tiles@.contains(target)));
                    }
                }
            }
            e += 1;
        }
        seen
    }
}

} // verus!
