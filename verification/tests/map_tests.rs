use rltk::RandomNumberGenerator;
use rogue_core::map::GameMap;
use rogue_core::map::MapError;
use rogue_core::map::NROOMS;
use rogue_core::map::Pos;
use rogue_core::map::ROOM_MAX_SIZE;
use rogue_core::map::ROOM_MIN_SIZE;
use rogue_core::map::Room;
use rogue_core::map::TileType;

fn seeded_dungeon(seed: u64) -> GameMap {
    let mut m = GameMap::new(80, 50);
    let mut rng = RandomNumberGenerator::seeded(seed);
    m.generate_rooms(&mut rng);
    m
}

fn tile(m: &GameMap, x: i32, y: i32) -> TileType {
    m.tile(x as usize, y as usize)
}

#[test]
fn xy_idx_is_row_major() {
    let m = GameMap::new(80, 50);
    assert_eq!(m.xy_idx(0, 0), 0);
    assert_eq!(m.xy_idx(1, 0), 1);
    assert_eq!(m.xy_idx(0, 1), 80);
    assert_eq!(m.xy_idx(7, 3), 7 + 80 * 3);
}

#[test]
fn new_map_is_all_wall_and_sized() {
    let m = GameMap::new(80, 50);
    assert_eq!(m.tiles.len(), 80 * 50);
    assert_eq!(m.revealed_tiles.len(), 80 * 50);
    assert!(m.tiles.iter().all(|t| *t == TileType::Wall));
    assert!(m.revealed_tiles.iter().all(|r| !*r));
    assert!(m.rooms.is_empty());
}

#[test]
fn generated_map_tiles_are_wall_or_floor() {
    let m = seeded_dungeon(42);
    assert_eq!(m.tiles.len(), m.w * m.h);
    for t in &m.tiles {
        assert!(*t == TileType::Wall || *t == TileType::Floor);
    }
}

#[test]
fn room_br_and_center() {
    let r = Room { tl: Pos { x: 3, y: 4 }, w: 8, h: 10 };
    let br = r.br();
    assert_eq!(br.x, 11);
    assert_eq!(br.y, 14);
    let c = r.center_pos();
    assert_eq!(c.x, 7);
    assert_eq!(c.y, 9);
}

#[test]
fn overlaps_identical_corners() {
    let a = Room { tl: Pos { x: 5, y: 5 }, w: 7, h: 7 };
    let b = Room { tl: Pos { x: 5, y: 5 }, w: 12, h: 9 };
    assert!(a.overlaps(&b));
    assert!(b.overlaps(&a));
}

#[test]
fn overlaps_disjoint_rooms() {
    let a = Room { tl: Pos { x: 1, y: 1 }, w: 7, h: 7 };
    let b = Room { tl: Pos { x: 20, y: 20 }, w: 7, h: 7 };
    assert!(!a.overlaps(&b));
    assert!(!b.overlaps(&a));
}

#[test]
fn overlaps_touching_rooms_do_not_overlap() {
    // half-open extents: a room ending at x = 8 exclusive touches one
    // starting at x = 8 without sharing a cell
    let a = Room { tl: Pos { x: 1, y: 1 }, w: 7, h: 7 };
    let b = Room { tl: Pos { x: 8, y: 1 }, w: 7, h: 7 };
    assert!(!a.overlaps(&b));
    assert!(!b.overlaps(&a));
}

#[test]
fn overlaps_intersecting_rooms() {
    let a = Room { tl: Pos { x: 1, y: 1 }, w: 7, h: 7 };
    let b = Room { tl: Pos { x: 4, y: 4 }, w: 7, h: 7 };
    assert!(a.overlaps(&b));
    assert!(b.overlaps(&a));
}

#[test]
fn generated_rooms_are_pairwise_disjoint() {
    let m = seeded_dungeon(7);
    for i in 0..m.rooms.len() {
        for j in 0..m.rooms.len() {
            if i != j {
                assert!(!m.rooms[i].overlaps(&m.rooms[j]));
            }
        }
    }
}

#[test]
fn generated_rooms_are_within_bounds_and_size_range() {
    let m = seeded_dungeon(99);
    assert!(!m.rooms.is_empty());
    assert!(m.rooms.len() <= NROOMS);
    for r in &m.rooms {
        assert!(r.tl.x >= 1 && r.tl.y >= 1);
        assert!((r.br().x as usize) < m.w);
        assert!((r.br().y as usize) < m.h);
        assert!(r.w >= ROOM_MIN_SIZE && r.w < ROOM_MAX_SIZE);
        assert!(r.h >= ROOM_MIN_SIZE && r.h < ROOM_MAX_SIZE);
    }
}

#[test]
fn generated_room_interiors_are_floor() {
    let m = seeded_dungeon(3);
    for r in &m.rooms {
        for x in r.tl.x..r.br().x {
            for y in r.tl.y..r.br().y {
                assert_eq!(tile(&m, x, y), TileType::Floor);
            }
        }
    }
}

#[test]
fn generated_corridors_are_floor_and_contiguous() {
    let m = seeded_dungeon(11);
    assert!(m.rooms.len() >= 2);
    for i in 0..m.rooms.len() - 1 {
        let path = m.rooms[i].connecting_path(&m.rooms[i + 1]);
        let mut prev = m.rooms[i].center_pos();
        for p in &path {
            assert_eq!(tile(&m, p.x, p.y), TileType::Floor);
            let step = (p.x - prev.x).abs() + (p.y - prev.y).abs();
            assert_eq!(step, 1);
            prev = *p;
        }
        if !path.is_empty() {
            let dest = m.rooms[i + 1].center_pos();
            assert_eq!(*path.last().unwrap(), dest);
        }
    }
}

#[test]
fn connecting_path_all_sign_combinations() {
    let mk = |x: i32, y: i32| Room { tl: Pos { x, y }, w: 2, h: 2 };
    // centers are tl + (1, 1)
    let cases = [
        (mk(0, 0), mk(10, 6)),   // right, down
        (mk(10, 6), mk(0, 0)),   // left, up
        (mk(0, 6), mk(10, 0)),   // right, up
        (mk(10, 0), mk(0, 6)),   // left, down
        (mk(0, 0), mk(10, 0)),   // dy == 0
        (mk(0, 0), mk(0, 6)),    // dx == 0
    ];
    for (a, b) in &cases {
        let ca = a.center_pos();
        let cb = b.center_pos();
        let path = a.connecting_path(b);
        let expected = ((cb.x - ca.x).abs() + (cb.y - ca.y).abs()) as usize;
        assert_eq!(path.len(), expected);
        let mut prev = ca;
        for p in &path {
            assert_eq!((p.x - prev.x).abs() + (p.y - prev.y).abs(), 1);
            prev = *p;
        }
        assert_eq!(prev, cb);
    }
}

#[test]
fn connecting_path_same_center_is_empty() {
    let a = Room { tl: Pos { x: 4, y: 4 }, w: 2, h: 2 };
    let b = Room { tl: Pos { x: 4, y: 4 }, w: 2, h: 2 };
    assert!(a.connecting_path(&b).is_empty());
}

#[test]
fn scenario_seeded_dungeon_has_rooms_and_floor_spawn() {
    // 80 x 50 map, target room count, seeded generator
    let m = seeded_dungeon(1);
    assert!(m.rooms.len() > 0);
    for i in 0..m.rooms.len() {
        for j in 0..m.rooms.len() {
            if i != j {
                assert!(!m.rooms[i].overlaps(&m.rooms[j]));
            }
        }
    }
    let spawn = m.rooms[0].center_pos();
    assert_eq!(tile(&m, spawn.x, spawn.y), TileType::Floor);
}

#[test]
fn new_with_rooms_yields_valid_dungeon_or_failure() {
    match GameMap::new_with_rooms() {
        Ok(m) => {
            assert_eq!(m.w, 80);
            assert_eq!(m.h, 50);
            assert!(!m.rooms.is_empty());
            // the outermost ring stays wall
            for x in 0..m.w {
                assert_eq!(m.tile(x, 0), TileType::Wall);
                assert_eq!(m.tile(x, m.h - 1), TileType::Wall);
            }
            for y in 0..m.h {
                assert_eq!(m.tile(0, y), TileType::Wall);
                assert_eq!(m.tile(m.w - 1, y), TileType::Wall);
            }
            assert!(m.revealed_tiles.iter().all(|r| !*r));
        }
        Err(e) => assert_eq!(e, MapError::GenerationFailure),
    }
}

#[test]
fn new_simple_has_wall_border() {
    let m = GameMap::new_simple();
    assert_eq!(m.w, 80);
    assert_eq!(m.h, 50);
    assert_eq!(m.tiles.len(), 80 * 50);
    for x in 0..m.w {
        assert_eq!(m.tile(x, 0), TileType::Wall);
        assert_eq!(m.tile(x, m.h - 1), TileType::Wall);
    }
    for y in 0..m.h {
        assert_eq!(m.tile(0, y), TileType::Wall);
        assert_eq!(m.tile(m.w - 1, y), TileType::Wall);
    }
}
