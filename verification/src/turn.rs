use vstd::prelude::*;

use crate::components::Position;
use crate::components::Viewshed;
use crate::map::GameMap;
use crate::map::TileType;

verus! {

/// Whether the session advances this frame: one accepted input runs
/// the turn pipeline, anything else leaves the world asleep.
#[derive(PartialEq, Eq, Structural, Clone, Copy, Debug)]
pub enum SleepState {
    Running,
    Sleeping,
}

/// One discrete directional command, consumed once per turn.
#[derive(PartialEq, Eq, Structural, Clone, Copy, Debug)]
pub enum Command {
    Up,
    Down,
    Left,
    Right,
}

/// The unit displacement a command asks for. `y` grows downward, so
/// `Up` is negative `y`.
pub open spec fn delta_of(cmd: Command) -> (int, int) {
    match cmd {
        Command::Up => (0, -1),
        Command::Down => (0, 1),
        Command::Left => (-1, 0),
        Command::Right => (1, 0),
    }
}

/// Executable twin of `delta_of`.
pub fn command_delta(cmd: Command) -> (d: (i32, i32))
    ensures
        d.0 == delta_of(cmd).0,
        d.1 == delta_of(cmd).1,
{
    match cmd {
        Command::Up => (0, -1),
        Command::Down => (0, 1),
        Command::Left => (-1, 0),
        Command::Right => (1, 0),
    }
}

/// A move of entity `player` by `(dx, dy)` is accepted exactly when the
/// destination is on the map, is a floor tile, and no other entity
/// stands on it.
pub open spec fn move_accepted(
    map: GameMap, ps: Seq<Position>, player: int, dx: int, dy: int,
) -> bool {
    let nx = ps[player].x + dx;
    let ny = ps[player].y + dy;
    &&& map.in_bounds(nx, ny)
    &&& map.tile_at(nx, ny) == TileType::Floor
    &&& (forall|e: int|
        0 <= e < ps.len() && e != player
            ==> !((#[trigger] ps[e]).x == nx && ps[e].y == ny))
}

/// The position table after an accepted move.
pub open spec fn moved_positions(ps: Seq<Position>, player: int, dx: int, dy: int) -> Seq<
    Position,
> {
    ps.update(player, (Position {
        x: (ps[player].x + dx) as i32,
        y: (ps[player].y + dy) as i32,
    }))
}

/// Tries to move the player by one displacement. An out-of-bounds
/// destination is rejected outright — coordinates never wrap — and so
/// are walls and cells occupied by any other entity. An accepted move
/// updates the position and raises the viewshed's dirty flag, which is
/// the one trigger for a visibility recompute; a rejected move changes
/// nothing at all.
#[verifier::loop_isolation(false)]
pub fn move_player(
    map: &GameMap,
    positions: &mut Vec<Position>,
    viewsheds: &mut Vec<Viewshed>,
    player: usize,
    delta_x: i32,
    delta_y: i32,
) -> (moved: bool)
    requires
        map.wf(),
        player < old(positions)@.len(),
        old(viewsheds)@.len() == old(positions)@.len(),
    ensures
        final(positions)@.len() == old(positions)@.len(),
        final(viewsheds)@.len() == old(viewsheds)@.len(),
        moved == move_accepted(*map, old(positions)@, player as int, delta_x as int,
            delta_y as int),
        moved ==> final(positions)@ == moved_positions(old(positions)@, player as int,
            delta_x as int, delta_y as int),
        moved ==> ({
            let vs = final(viewsheds)@[player as int];
            &&& vs.dirty
            &&& vs.range == old(viewsheds)@[player as int].range
            &&& vs.visible_tiles == old(viewsheds)@[player as int].visible_tiles
            &&& (forall|e: int|
                0 <= e < old(viewsheds)@.len() && e != player
                    ==> final(viewsheds)@[e] == old(viewsheds)@[e])
        }),
        !moved ==> *final(positions) == *old(positions) && *final(viewsheds) == *old(viewsheds),
{
    let p = positions[player];
    let dx64 = p.x as i64 + delta_x as i64;
    let dy64 = p.y as i64 + delta_y as i64;
    if dx64 < 0 || dx64 >= map.w as i64 || dy64 < 0 || dy64 >= map.h as i64 {
        return false;
    }
    let nx = dx64 as i32;
    let ny = dy64 as i32;
    if !map.is_walkable(nx as usize, ny as usize) {
        return false;
    }
    let mut e: usize = 0;
    while e < positions.len()
        invariant
            e <= positions@.len(),
            forall|j: int|
                0 <= j < e && j != player
                    ==> !((#[trigger] positions@[j]).x == nx && positions@[j].y == ny),
        decreases positions@.len() - e,
    {
        if e != player {
            let q = positions[e];
            if q.x == nx && q.y == ny {
                return false;
            }
        }
        e += 1;
    }
    positions[player] = Position { x: nx, y: ny };
    let mut tmp = Viewshed { visible_tiles: Vec::new(), range: 0, dirty: false };
    viewsheds.set_and_swap(player, &mut tmp);
    let mut upd = Viewshed { visible_tiles: tmp.visible_tiles, range: tmp.range, dirty: true };
    viewsheds.set_and_swap(player, &mut upd);
    true
}

/// One unit step wrapped onto a torus: falling off an edge re-enters on
/// the opposite side.
pub open spec fn unit_wrap(v: int, m: int) -> int {
    if v < 0 {
        v + m
    } else if v >= m {
        v - m
    } else {
        v
    }
}

/// The historical toroidal movement variant, offered only as this
/// explicit alternate mode and used by nothing else in the core: a unit
/// displacement wraps around the map edges instead of being rejected
/// there. Walls and occupied cells still reject the move.
#[verifier::loop_isolation(false)]
pub fn move_player_wrapping(
    map: &GameMap,
    positions: &mut Vec<Position>,
    viewsheds: &mut Vec<Viewshed>,
    player: usize,
    delta_x: i32,
    delta_y: i32,
) -> (moved: bool)
    requires
        map.wf(),
        player < old(positions)@.len(),
        old(viewsheds)@.len() == old(positions)@.len(),
        -1 <= delta_x <= 1,
        -1 <= delta_y <= 1,
        map.in_bounds(old(positions)@[player as int].x as int,
            old(positions)@[player as int].y as int),
    ensures
        final(positions)@.len() == old(positions)@.len(),
        final(viewsheds)@.len() == old(viewsheds)@.len(),
        moved == ({
            let nx = unit_wrap(old(positions)@[player as int].x + delta_x, map.w as int);
            let ny = unit_wrap(old(positions)@[player as int].y + delta_y, map.h as int);
            &&& map.tile_at(nx, ny) == TileType::Floor
            &&& (forall|e: int|
                0 <= e < old(positions)@.len() && e != player
                    ==> !((#[trigger] old(positions)@[e]).x == nx && old(positions)@[e].y == ny))
        }),
        moved ==> ({
            let nx = unit_wrap(old(positions)@[player as int].x + delta_x, map.w as int);
            let ny = unit_wrap(old(positions)@[player as int].y + delta_y, map.h as int);
            &&& final(positions)@ == old(positions)@.update(player as int, (Position {
                x: nx as i32,
                y: ny as i32,
            }))
            &&& final(viewsheds)@[player as int].dirty
            &&& final(viewsheds)@[player as int].range == old(viewsheds)@[player as int].range
            &&& final(viewsheds)@[player as int].visible_tiles == old(
                viewsheds,
            )@[player as int].visible_tiles
            &&& (forall|e: int|
                0 <= e < old(viewsheds)@.len() && e != player
                    ==> final(viewsheds)@[e] == old(viewsheds)@[e])
        }),
        !moved ==> *final(positions) == *old(positions) && *final(viewsheds) == *old(viewsheds),
{
    let p = positions[player];
    let mut nx64 = p.x as i64 + delta_x as i64;
    let mut ny64 = p.y as i64 + delta_y as i64;
    if nx64 < 0 {
        nx64 += map.w as i64;
    } else if nx64 >= map.w as i64 {
        nx64 -= map.w as i64;
    }
    if ny64 < 0 {
        ny64 += map.h as i64;
    } else if ny64 >= map.h as i64 {
        ny64 -= map.h as i64;
    }
    let nx = nx64 as i32;
    let ny = ny64 as i32;
    if !map.is_walkable(nx as usize, ny as usize) {
        return false;
    }
    let mut e: usize = 0;
    while e < positions.len()
        invariant
            e <= positions@.len(),
            forall|j: int|
                0 <= j < e && j != player
                    ==> !((#[trigger] positions@[j]).x == nx && positions@[j].y == ny),
        decreases positions@.len() - e,
    {
        if e != player {
            let q = positions[e];
            if q.x == nx && q.y == ny {
                return false;
            }
        }
        e += 1;
    }
    positions[player] = Position { x: nx, y: ny };
    let mut tmp = Viewshed { visible_tiles: Vec::new(), range: 0, dirty: false };
    viewsheds.set_and_swap(player, &mut tmp);
    let mut upd = Viewshed { visible_tiles: tmp.visible_tiles, range: tmp.range, dirty: true };
    viewsheds.set_and_swap(player, &mut upd);
    true
}

/// One frame's worth of input: no command leaves the world sleeping and
/// untouched; a directional command attempts the move — accepted or
/// not — and wakes the turn pipeline.
pub fn apply_command(
    map: &GameMap,
    positions: &mut Vec<Position>,
    viewsheds: &mut Vec<Viewshed>,
    player: usize,
    cmd: Option<Command>,
) -> (st: SleepState)
    requires
        map.wf(),
        player < old(positions)@.len(),
        old(viewsheds)@.len() == old(positions)@.len(),
    ensures
        final(positions)@.len() == old(positions)@.len(),
        final(viewsheds)@.len() == old(viewsheds)@.len(),
        st == (if cmd is Some { SleepState::Running } else { SleepState::Sleeping }),
        cmd is None ==> *final(positions) == *old(positions) && *final(viewsheds) == *old(viewsheds),
        cmd is Some ==> ({
            let d = delta_of(cmd->0);
            let accepted = move_accepted(*map, old(positions)@, player as int, d.0, d.1);
            &&& (accepted ==> final(positions)@ == moved_positions(old(positions)@,
                player as int, d.0, d.1) && final(viewsheds)@[player as int].dirty)
            &&& (!accepted ==> *final(positions) == *old(positions) && *final(viewsheds) == *old(viewsheds))
        }),
{
    match cmd {
        None => SleepState::Sleeping,
        Some(c) => {
            let d = command_delta(c);
            move_player(map, positions, viewsheds, player, d.0, d.1);
            SleepState::Running
        }
    }
}

} // verus!
