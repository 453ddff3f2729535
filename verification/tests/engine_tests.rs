use rogue_core::components::Position;
use rogue_core::components::Viewshed;
use rogue_core::map::GameMap;
use rogue_core::map::Pos;
use rogue_core::map::TileType;
use rogue_core::systems::MonsterAI;
use rogue_core::systems::VisibilitySystem;
use rogue_core::turn::Command;
use rogue_core::turn::SleepState;
use rogue_core::turn::apply_command;
use rogue_core::turn::command_delta;
use rogue_core::turn::move_player;
use rogue_core::turn::move_player_wrapping;
use rogue_core::visibility::compute_fov;

fn open_map(w: usize, h: usize) -> GameMap {
    GameMap {
        w,
        h,
        tiles: vec![TileType::Floor; w * h],
        revealed_tiles: vec![false; w * h],
        rooms: vec![],
    }
}

fn cheb(a: Pos, b: Pos) -> i32 {
    (b.x - a.x).abs().max((b.y - a.y).abs())
}

#[test]
fn own_tile_is_always_visible() {
    let m = open_map(20, 20);
    let origin = Pos { x: 5, y: 5 };
    let fov = compute_fov(&m, origin, 0);
    assert!(fov.contains(&origin));
    let fov8 = compute_fov(&m, origin, 8);
    assert!(fov8.contains(&origin));
}

#[test]
fn occluding_wall_is_visible_and_cells_beyond_are_not() {
    let mut m = open_map(20, 5);
    // wall at (8, 2), observer at (2, 2), sight line straight east
    let idx = m.xy_idx(8, 2);
    m.tiles[idx] = TileType::Wall;
    let fov = compute_fov(&m, Pos { x: 2, y: 2 }, 12);
    assert!(fov.contains(&Pos { x: 8, y: 2 }));
    assert!(!fov.contains(&Pos { x: 9, y: 2 }));
    assert!(!fov.contains(&Pos { x: 10, y: 2 }));
    assert!(fov.contains(&Pos { x: 7, y: 2 }));
}

#[test]
fn open_room_fov_is_every_tile_within_range() {
    // player at (5, 5), range 8, no walls within range
    let m = open_map(30, 30);
    let origin = Pos { x: 5, y: 5 };
    let fov = compute_fov(&m, origin, 8);
    for x in 0..30 {
        for y in 0..30 {
            let p = Pos { x, y };
            let expected = cheb(origin, p) <= 8;
            assert_eq!(fov.contains(&p), expected);
        }
    }
}

#[test]
fn fov_is_clipped_to_map_bounds() {
    let m = open_map(10, 10);
    let fov = compute_fov(&m, Pos { x: 1, y: 1 }, 8);
    for p in &fov {
        assert!(p.x >= 0 && (p.x as usize) < m.w);
        assert!(p.y >= 0 && (p.y as usize) < m.h);
    }
}

#[test]
fn visibility_pass_recomputes_dirty_and_clears_flag() {
    let mut m = open_map(20, 20);
    let positions = vec![Position { x: 5, y: 5 }];
    let players = vec![true];
    let mut viewsheds = vec![Viewshed::new(8)];
    assert!(viewsheds[0].dirty);
    VisibilitySystem::run(&mut m, &mut viewsheds, &positions, &players);
    assert!(!viewsheds[0].dirty);
    assert!(viewsheds[0].visible_tiles.contains(&Pos { x: 5, y: 5 }));
}

#[test]
fn clean_viewshed_is_not_recomputed() {
    let mut m = open_map(20, 20);
    let positions = vec![Position { x: 5, y: 5 }];
    let players = vec![true];
    let stale = vec![Pos { x: 17, y: 17 }];
    let mut viewsheds = vec![Viewshed { visible_tiles: stale.clone(), range: 8, dirty: false }];
    VisibilitySystem::run(&mut m, &mut viewsheds, &positions, &players);
    // untouched: still the stale contents, not a fresh field of view
    assert_eq!(viewsheds[0].visible_tiles, stale);
    assert!(!viewsheds[0].dirty);
    // and nothing was revealed by a clean viewshed
    assert!(m.revealed_tiles.iter().all(|r| !*r));
}

#[test]
fn pass_skips_clean_viewsheds_but_recomputes_later_dirty_ones() {
    let mut m = open_map(20, 20);
    let positions = vec![Position { x: 3, y: 3 }, Position { x: 10, y: 10 }];
    let players = vec![false, false];
    let mut viewsheds = vec![
        Viewshed { visible_tiles: vec![], range: 4, dirty: false },
        Viewshed::new(4),
    ];
    VisibilitySystem::run(&mut m, &mut viewsheds, &positions, &players);
    // the clean first observer did not stop the pass
    assert!(!viewsheds[1].dirty);
    assert!(viewsheds[1].visible_tiles.contains(&Pos { x: 10, y: 10 }));
}

#[test]
fn revealed_is_monotonic_across_passes() {
    let mut m = open_map(30, 30);
    let players = vec![true];
    let mut positions = vec![Position { x: 5, y: 5 }];
    let mut viewsheds = vec![Viewshed::new(4)];
    VisibilitySystem::run(&mut m, &mut viewsheds, &positions, &players);
    let after_first = m.revealed_tiles.clone();
    assert!(after_first.iter().any(|r| *r));

    // move far away and recompute: old tiles must stay revealed
    positions[0] = Position { x: 25, y: 25 };
    viewsheds[0].dirty = true;
    VisibilitySystem::run(&mut m, &mut viewsheds, &positions, &players);
    for (was, is) in after_first.iter().zip(m.revealed_tiles.iter()) {
        if *was {
            assert!(*is);
        }
    }
}

#[test]
fn monsters_do_not_reveal_tiles() {
    let mut m = open_map(20, 20);
    let positions = vec![Position { x: 5, y: 5 }];
    let players = vec![false];
    let mut viewsheds = vec![Viewshed::new(8)];
    VisibilitySystem::run(&mut m, &mut viewsheds, &positions, &players);
    assert!(m.revealed_tiles.iter().all(|r| !*r));
}

#[test]
fn player_reveals_exactly_its_visible_tiles() {
    let mut m = open_map(20, 20);
    let positions = vec![Position { x: 5, y: 5 }];
    let players = vec![true];
    let mut viewsheds = vec![Viewshed::new(3)];
    VisibilitySystem::run(&mut m, &mut viewsheds, &positions, &players);
    for x in 0..20i32 {
        for y in 0..20i32 {
            let seen = viewsheds[0].visible_tiles.contains(&Pos { x, y });
            let revealed = m.revealed_tiles[m.xy_idx(x as usize, y as usize)];
            assert_eq!(seen, revealed);
        }
    }
}

#[test]
fn exactly_the_unobstructed_monster_senses_the_player() {
    let mut m = open_map(30, 7);
    // a vertical wall screens the player from the second monster
    for y in 0..7 {
        let idx = m.xy_idx(20, y);
        m.tiles[idx] = TileType::Wall;
    }
    let player_pos = Position { x: 5, y: 3 };
    let positions = vec![player_pos, Position { x: 12, y: 3 }, Position { x: 27, y: 3 }];
    let players = vec![true, false, false];
    let monsters = vec![false, true, true];
    let mut viewsheds = vec![Viewshed::new(8), Viewshed::new(25), Viewshed::new(25)];
    VisibilitySystem::run(&mut m, &mut viewsheds, &positions, &players);
    let seen = MonsterAI::run(&viewsheds, &monsters, player_pos);
    assert_eq!(seen, vec![false, true, false]);
}

#[test]
fn move_onto_floor_is_accepted_and_dirties_viewshed() {
    let m = open_map(10, 10);
    let mut positions = vec![Position { x: 4, y: 4 }];
    let mut viewsheds = vec![Viewshed { visible_tiles: vec![], range: 8, dirty: false }];
    let moved = move_player(&m, &mut positions, &mut viewsheds, 0, 1, 0);
    assert!(moved);
    assert_eq!(positions[0], Position { x: 5, y: 4 });
    assert!(viewsheds[0].dirty);
}

#[test]
fn move_into_wall_is_rejected() {
    let mut m = open_map(10, 10);
    let idx = m.xy_idx(5, 4);
    m.tiles[idx] = TileType::Wall;
    let mut positions = vec![Position { x: 4, y: 4 }];
    let mut viewsheds = vec![Viewshed { visible_tiles: vec![], range: 8, dirty: false }];
    let moved = move_player(&m, &mut positions, &mut viewsheds, 0, 1, 0);
    assert!(!moved);
    assert_eq!(positions[0], Position { x: 4, y: 4 });
    assert!(!viewsheds[0].dirty);
}

#[test]
fn move_out_of_bounds_is_rejected_not_wrapped() {
    let m = open_map(10, 10);
    let mut positions = vec![Position { x: 0, y: 0 }];
    let mut viewsheds = vec![Viewshed { visible_tiles: vec![], range: 8, dirty: false }];
    assert!(!move_player(&m, &mut positions, &mut viewsheds, 0, -1, 0));
    assert!(!move_player(&m, &mut positions, &mut viewsheds, 0, 0, -1));
    assert_eq!(positions[0], Position { x: 0, y: 0 });
    assert!(!viewsheds[0].dirty);
}

#[test]
fn move_onto_occupied_tile_is_rejected() {
    let m = open_map(10, 10);
    let mut positions = vec![Position { x: 4, y: 4 }, Position { x: 5, y: 4 }];
    let mut viewsheds = vec![
        Viewshed { visible_tiles: vec![], range: 8, dirty: false },
        Viewshed { visible_tiles: vec![], range: 8, dirty: false },
    ];
    let moved = move_player(&m, &mut positions, &mut viewsheds, 0, 1, 0);
    assert!(!moved);
    assert_eq!(positions[0], Position { x: 4, y: 4 });
}

#[test]
fn command_deltas_are_unit_steps() {
    assert_eq!(command_delta(Command::Up), (0, -1));
    assert_eq!(command_delta(Command::Down), (0, 1));
    assert_eq!(command_delta(Command::Left), (-1, 0));
    assert_eq!(command_delta(Command::Right), (1, 0));
}

#[test]
fn apply_command_wakes_on_input_and_sleeps_without() {
    let m = open_map(10, 10);
    let mut positions = vec![Position { x: 4, y: 4 }];
    let mut viewsheds = vec![Viewshed { visible_tiles: vec![], range: 8, dirty: false }];
    let st = apply_command(&m, &mut positions, &mut viewsheds, 0, None);
    assert_eq!(st, SleepState::Sleeping);
    assert_eq!(positions[0], Position { x: 4, y: 4 });
    let st = apply_command(&m, &mut positions, &mut viewsheds, 0, Some(Command::Down));
    assert_eq!(st, SleepState::Running);
    assert_eq!(positions[0], Position { x: 4, y: 5 });
    assert!(viewsheds[0].dirty);
}

#[test]
fn wrapping_move_crosses_the_edge() {
    let m = open_map(10, 10);
    let mut positions = vec![Position { x: 0, y: 5 }];
    let mut viewsheds = vec![Viewshed { visible_tiles: vec![], range: 8, dirty: false }];
    let moved = move_player_wrapping(&m, &mut positions, &mut viewsheds, 0, -1, 0);
    assert!(moved);
    assert_eq!(positions[0], Position { x: 9, y: 5 });
    assert!(viewsheds[0].dirty);
    let moved = move_player_wrapping(&m, &mut positions, &mut viewsheds, 0, 1, 0);
    assert!(moved);
    assert_eq!(positions[0], Position { x: 0, y: 5 });
}

#[test]
fn wrapping_move_still_rejects_walls() {
    let mut m = open_map(10, 10);
    let idx = m.xy_idx(9, 5);
    m.tiles[idx] = TileType::Wall;
    let mut positions = vec![Position { x: 0, y: 5 }];
    let mut viewsheds = vec![Viewshed { visible_tiles: vec![], range: 8, dirty: false }];
    let moved = move_player_wrapping(&m, &mut positions, &mut viewsheds, 0, -1, 0);
    assert!(!moved);
    assert_eq!(positions[0], Position { x: 0, y: 5 });
    assert!(!viewsheds[0].dirty);
}

#[test]
fn viewshed_spawns_dirty_and_empty() {
    let vs = Viewshed::new(8);
    assert!(vs.dirty);
    assert_eq!(vs.range, 8);
    assert!(vs.visible_tiles.is_empty());
}
