use dungeon_core::map_builder::{
    bend_last, candidate_room, fallback, fits_among, keep_if_clear, place_rooms, MapConfig,
};
use dungeon_core::{Rect, TileMap, TileType};
use rltk::RandomNumberGenerator;

fn two_room_map(horizontal_first: bool) -> TileMap {
    let rooms = vec![Rect::new(2, 2, 4, 4), Rect::new(12, 12, 4, 4)];
    TileMap::from_rooms(20, 20, rooms, vec![false, horizontal_first]).unwrap()
}

fn between(a: i32, b: i32, v: i32) -> bool {
    (a <= v && v <= b) || (b <= v && v <= a)
}

fn expected_floor(rooms: &[Rect], bends: &[bool], x: i32, y: i32) -> bool {
    for (k, room) in rooms.iter().enumerate() {
        if room.x1 < x && x <= room.x2 && room.y1 < y && y <= room.y2 {
            return true;
        }
        if k >= 1 {
            let (px, py) = rooms[k - 1].center();
            let (nx, ny) = room.center();
            let on = if bends[k] {
                (y == py && between(px, nx, x)) || (x == nx && between(py, ny, y))
            } else {
                (x == px && between(py, ny, y)) || (y == ny && between(px, nx, x))
            };
            if on {
                return true;
            }
        }
    }
    false
}

fn reachable(map: &TileMap, from: (i32, i32), to: (i32, i32)) -> bool {
    let mut seen = vec![false; map.tiles.len()];
    let mut stack = vec![from];
    while let Some((x, y)) = stack.pop() {
        if !map.in_bounds(x, y) {
            continue;
        }
        let idx = map.xy_idx(x, y);
        if seen[idx] || map.tiles[idx] != TileType::Floor {
            continue;
        }
        seen[idx] = true;
        if (x, y) == to {
            return true;
        }
        stack.push((x + 1, y));
        stack.push((x - 1, y));
        stack.push((x, y + 1));
        stack.push((x, y - 1));
    }
    false
}

#[test]
fn xy_idx_is_row_major() {
    let map = two_room_map(true);
    assert_eq!(map.xy_idx(0, 0), 0);
    assert_eq!(map.xy_idx(3, 2), 43);
    assert_eq!(map.xy_idx(19, 19), 399);
}

#[test]
fn in_bounds_excludes_the_edges_beyond() {
    let map = two_room_map(true);
    assert!(map.in_bounds(0, 0));
    assert!(map.in_bounds(19, 19));
    assert!(!map.in_bounds(20, 0));
    assert!(!map.in_bounds(0, 20));
    assert!(!map.in_bounds(-1, 5));
    assert!(!map.in_bounds(5, -1));
}

#[test]
fn from_rooms_keeps_size_and_rooms() {
    let map = two_room_map(true);
    assert_eq!(map.width, 20);
    assert_eq!(map.height, 20);
    assert_eq!(map.rooms, vec![Rect::new(2, 2, 4, 4), Rect::new(12, 12, 4, 4)]);
    assert_eq!(map.tiles.len(), 400);
    assert_eq!(map.revealed_tiles.len(), 400);
    assert_eq!(map.visible_tiles.len(), 400);
    assert_eq!(map.blocked.len(), 400);
    assert_eq!(map.tile_content.len(), 400);
}

#[test]
fn from_rooms_starts_with_clear_flags() {
    let map = two_room_map(true);
    assert!(map.revealed_tiles.iter().all(|f| !f));
    assert!(map.visible_tiles.iter().all(|f| !f));
    assert!(map.blocked.iter().all(|f| !f));
    assert!(map.tile_content.iter().all(|c| c.is_empty()));
}

#[test]
fn from_rooms_opens_room_interiors() {
    let map = two_room_map(true);
    for y in 3..=6 {
        for x in 3..=6 {
            assert_eq!(map.tiles[map.xy_idx(x, y)], TileType::Floor);
        }
    }
    for y in 13..=16 {
        for x in 13..=16 {
            assert_eq!(map.tiles[map.xy_idx(x, y)], TileType::Floor);
        }
    }
    assert_eq!(map.tiles[map.xy_idx(2, 2)], TileType::Wall);
    assert_eq!(map.tiles[map.xy_idx(2, 4)], TileType::Wall);
    assert_eq!(map.tiles[map.xy_idx(7, 3)], TileType::Wall);
    assert_eq!(map.tiles[map.xy_idx(12, 12)], TileType::Wall);
    assert_eq!(map.tiles[map.xy_idx(17, 17)], TileType::Wall);
}

#[test]
fn from_rooms_horizontal_first_corridor() {
    let map = two_room_map(true);
    for x in 4..=14 {
        assert_eq!(map.tiles[map.xy_idx(x, 4)], TileType::Floor);
    }
    for y in 4..=14 {
        assert_eq!(map.tiles[map.xy_idx(14, y)], TileType::Floor);
    }
    assert_eq!(map.tiles[map.xy_idx(4, 10)], TileType::Wall);
    assert_eq!(map.tiles[map.xy_idx(10, 14)], TileType::Wall);
    let floors = map.tiles.iter().filter(|t| **t == TileType::Floor).count();
    assert_eq!(floors, 48);
}

#[test]
fn from_rooms_vertical_first_corridor() {
    let map = two_room_map(false);
    for y in 4..=14 {
        assert_eq!(map.tiles[map.xy_idx(4, y)], TileType::Floor);
    }
    for x in 4..=14 {
        assert_eq!(map.tiles[map.xy_idx(x, 14)], TileType::Floor);
    }
    assert_eq!(map.tiles[map.xy_idx(10, 4)], TileType::Wall);
    assert_eq!(map.tiles[map.xy_idx(14, 10)], TileType::Wall);
    let floors = map.tiles.iter().filter(|t| **t == TileType::Floor).count();
    assert_eq!(floors, 48);
}

#[test]
fn two_room_map_connects_the_centers() {
    for bend in [false, true] {
        let map = two_room_map(bend);
        assert!(reachable(&map, (4, 4), (14, 14)));
        assert!(reachable(&map, (14, 14), (4, 4)));
    }
}

#[test]
fn from_rooms_single_room() {
    let map = TileMap::from_rooms(7, 7, vec![Rect::new(1, 1, 4, 4)], vec![false]).unwrap();
    let floors = map.tiles.iter().filter(|t| **t == TileType::Floor).count();
    assert_eq!(floors, 16);
    assert_eq!(map.tiles[map.xy_idx(2, 2)], TileType::Floor);
    assert_eq!(map.tiles[map.xy_idx(5, 5)], TileType::Floor);
    assert_eq!(map.tiles[map.xy_idx(1, 1)], TileType::Wall);
    assert_eq!(map.tiles[map.xy_idx(6, 6)], TileType::Wall);
}

#[test]
fn from_rooms_rejects_no_rooms() {
    assert!(TileMap::from_rooms(20, 20, vec![], vec![]).is_none());
}

#[test]
fn from_rooms_rejects_overlapping_rooms() {
    let rooms = vec![Rect::new(2, 2, 4, 4), Rect::new(5, 5, 4, 4)];
    assert!(TileMap::from_rooms(20, 20, rooms, vec![false, false]).is_none());
}

#[test]
fn from_rooms_rejects_touching_rooms() {
    let rooms = vec![Rect::new(2, 2, 4, 4), Rect::new(6, 2, 4, 4)];
    assert!(TileMap::from_rooms(20, 20, rooms, vec![false, false]).is_none());
    let rooms = vec![Rect::new(2, 2, 4, 4), Rect::new(7, 2, 4, 4)];
    assert!(TileMap::from_rooms(20, 20, rooms, vec![false, false]).is_some());
}

#[test]
fn from_rooms_rejects_room_off_the_map() {
    assert!(TileMap::from_rooms(20, 20, vec![Rect::new(16, 2, 4, 4)], vec![false]).is_none());
    assert!(TileMap::from_rooms(20, 20, vec![Rect::new(15, 2, 4, 4)], vec![false]).is_some());
    assert!(TileMap::from_rooms(20, 20, vec![Rect::new(-1, 2, 4, 4)], vec![false]).is_none());
    assert!(TileMap::from_rooms(20, 20, vec![Rect::new(2, 17, 4, 4)], vec![false]).is_none());
}

#[test]
fn from_rooms_rejects_room_of_one_tile() {
    assert!(TileMap::from_rooms(20, 20, vec![Rect::new(2, 2, 1, 4)], vec![false]).is_none());
    assert!(TileMap::from_rooms(20, 20, vec![Rect::new(2, 2, 4, 1)], vec![false]).is_none());
    assert!(TileMap::from_rooms(20, 20, vec![Rect::new(2, 2, 2, 2)], vec![false]).is_some());
}

#[test]
fn from_rooms_rejects_wrong_number_of_bends() {
    let rooms = vec![Rect::new(2, 2, 4, 4), Rect::new(12, 12, 4, 4)];
    assert!(TileMap::from_rooms(20, 20, rooms, vec![false]).is_none());
}

#[test]
fn from_rooms_rejects_bad_size() {
    assert!(TileMap::from_rooms(0, 20, vec![Rect::new(2, 2, 4, 4)], vec![false]).is_none());
    assert!(TileMap::from_rooms(20, -1, vec![Rect::new(2, 2, 4, 4)], vec![false]).is_none());
    assert!(TileMap::from_rooms(65536, 32768, vec![Rect::new(2, 2, 4, 4)], vec![false]).is_none());
}

#[test]
fn config_new_accepts_valid_parameters() {
    let config = MapConfig::new(30, 6, 9, 80, 50).unwrap();
    assert_eq!(
        config,
        MapConfig { max_rooms: 30, min_size: 6, max_size: 9, map_width: 80, map_height: 50 }
    );
    assert_eq!(config, MapConfig::standard());
    assert!(config.is_valid());
}

#[test]
fn config_new_rejects_invalid_parameters() {
    assert!(MapConfig::new(30, 1, 9, 80, 50).is_none());
    assert!(MapConfig::new(30, 6, 5, 80, 50).is_none());
    assert!(MapConfig::new(30, 6, 9, 10, 50).is_none());
    assert!(MapConfig::new(30, 6, 9, 80, 10).is_none());
    assert!(MapConfig::new(30, 6, 9, 0, 50).is_none());
    assert!(MapConfig::new(30, 6, 9, 11, 11).is_some());
    assert!(MapConfig::new(-5, 2, 2, 4, 4).is_some());
}

#[test]
fn fits_among_tests_every_room() {
    let rooms = vec![Rect::new(0, 0, 4, 4), Rect::new(10, 10, 4, 4)];
    assert!(fits_among(&rooms, &Rect::new(5, 5, 4, 4)));
    assert!(!fits_among(&rooms, &Rect::new(3, 3, 4, 4)));
    assert!(!fits_among(&rooms, &Rect::new(9, 9, 4, 4)));
    assert!(fits_among(&Vec::new(), &Rect::new(3, 3, 4, 4)));
}

#[test]
fn generated_maps_are_well_formed() {
    let config = MapConfig::standard();
    for seed in 0..40u64 {
        let mut rng = RandomNumberGenerator::seeded(seed);
        let (rooms, bends) = place_rooms(&config, &mut rng);
        assert!(!rooms.is_empty());
        assert!(rooms.len() <= 30);
        assert_eq!(rooms.len(), bends.len());
        for (i, a) in rooms.iter().enumerate() {
            assert!(a.x1 >= 0 && a.y1 >= 0 && a.x2 <= 78 && a.y2 <= 48);
            assert!(a.x2 - a.x1 >= 6 && a.x2 - a.x1 <= 9);
            assert!(a.y2 - a.y1 >= 6 && a.y2 - a.y1 <= 9);
            for b in rooms.iter().skip(i + 1) {
                assert!(!a.intersect(b));
            }
        }
        let map = TileMap::from_rooms(80, 50, rooms.clone(), bends.clone()).unwrap();
        for y in 0..50 {
            for x in 0..80 {
                let want = if expected_floor(&rooms, &bends, x, y) {
                    TileType::Floor
                } else {
                    TileType::Wall
                };
                assert_eq!(map.tiles[map.xy_idx(x, y)], want);
            }
        }
        for x in 0..80 {
            assert_eq!(map.tiles[map.xy_idx(x, 0)], TileType::Wall);
            assert_eq!(map.tiles[map.xy_idx(x, 49)], TileType::Wall);
        }
        for y in 0..50 {
            assert_eq!(map.tiles[map.xy_idx(0, y)], TileType::Wall);
            assert_eq!(map.tiles[map.xy_idx(79, y)], TileType::Wall);
        }
    }
}

#[test]
fn generated_maps_connect_all_rooms() {
    let config = MapConfig::standard();
    for seed in 0..40u64 {
        let mut rng = RandomNumberGenerator::seeded(seed);
        let map = TileMap::generate(&config, &mut rng);
        let first = map.rooms[0].center();
        for room in map.rooms.iter() {
            assert!(reachable(&map, first, room.center()));
            assert!(reachable(&map, room.center(), first));
        }
    }
}

#[test]
fn generate_is_place_rooms_then_from_rooms() {
    let config = MapConfig::new(12, 3, 6, 40, 30).unwrap();
    for seed in [7u64, 99, 12345] {
        let mut first = RandomNumberGenerator::seeded(seed);
        let mut second = RandomNumberGenerator::seeded(seed);
        let map = TileMap::generate(&config, &mut first);
        let (rooms, bends) = place_rooms(&config, &mut second);
        let again = TileMap::from_rooms(40, 30, rooms, bends).unwrap();
        assert_eq!(map.rooms, again.rooms);
        assert_eq!(map.tiles, again.tiles);
        assert_eq!(map.width, 40);
        assert_eq!(map.height, 30);
    }
}

#[test]
fn generated_map_starts_with_clear_flags() {
    let mut rng = RandomNumberGenerator::seeded(3);
    let map = TileMap::new_map_rooms_and_corridors(&mut rng);
    assert_eq!(map.width, 80);
    assert_eq!(map.height, 50);
    assert!(map.revealed_tiles.iter().all(|f| !f));
    assert!(map.visible_tiles.iter().all(|f| !f));
    assert!(map.blocked.iter().all(|f| !f));
    assert!(map.tile_content.iter().all(|c| c.is_empty()));
}

#[test]
fn no_placements_fall_back_to_one_room() {
    for max_rooms in [0, -3] {
        let config = MapConfig::new(max_rooms, 3, 6, 40, 30).unwrap();
        let mut rng = RandomNumberGenerator::seeded(11);
        let (rooms, bends) = place_rooms(&config, &mut rng);
        assert_eq!(rooms, vec![Rect::new(0, 0, 3, 3)]);
        assert_eq!(bends, vec![false]);
        let map = TileMap::generate(&config, &mut rng);
        assert_eq!(map.rooms, vec![Rect::new(0, 0, 3, 3)]);
        assert_eq!(map.tiles[map.xy_idx(1, 1)], TileType::Floor);
        assert_eq!(map.tiles[map.xy_idx(3, 3)], TileType::Floor);
        assert_eq!(map.tiles[map.xy_idx(4, 4)], TileType::Wall);
    }
}

#[test]
fn one_placement_always_gives_one_room() {
    let config = MapConfig::new(1, 3, 6, 40, 30).unwrap();
    for seed in 0..20u64 {
        let mut rng = RandomNumberGenerator::seeded(seed);
        let (rooms, _) = place_rooms(&config, &mut rng);
        assert_eq!(rooms.len(), 1);
    }
}

#[test]
fn tightest_configuration_places_the_only_possible_room() {
    let config = MapConfig::new(5, 2, 2, 4, 4).unwrap();
    let mut rng = RandomNumberGenerator::seeded(5);
    let map = TileMap::generate(&config, &mut rng);
    assert_eq!(map.rooms, vec![Rect::new(0, 0, 2, 2)]);
}

#[test]
fn placed_rooms_vary_in_size_and_place() {
    let config = MapConfig::standard();
    let mut widths = Vec::new();
    let mut lefts = Vec::new();
    let mut tops = Vec::new();
    let mut some_bend = false;
    let mut some_straight = false;
    let mut most_rooms = 0;
    for seed in 0..10u64 {
        let mut rng = RandomNumberGenerator::seeded(seed);
        let (rooms, bends) = place_rooms(&config, &mut rng);
        most_rooms = most_rooms.max(rooms.len());
        for r in rooms.iter() {
            widths.push(r.x2 - r.x1);
            lefts.push(r.x1);
            tops.push(r.y1);
        }
        for b in bends.iter().skip(1) {
            if *b {
                some_bend = true;
            } else {
                some_straight = true;
            }
        }
    }
    assert!(widths.iter().any(|w| *w != 6));
    assert!(widths.iter().any(|w| *w != 10));
    assert!(lefts.iter().any(|x| *x != lefts[0]));
    assert!(tops.iter().any(|y| *y != tops[0]));
    assert!(lefts.iter().any(|x| *x != 0) && tops.iter().any(|y| *y != 0));
    assert!(some_bend && some_straight);
    assert!(most_rooms >= 5);
}

#[test]
fn candidate_room_puts_a_roll_of_one_against_the_edge() {
    let config = MapConfig::standard();
    assert_eq!(candidate_room(&config, 6, 9, 1, 1), Rect { x1: 0, y1: 0, x2: 6, y2: 9 });
}

#[test]
fn candidate_room_shifts_by_the_rolls() {
    let config = MapConfig::standard();
    assert_eq!(candidate_room(&config, 7, 8, 12, 30), Rect { x1: 11, y1: 29, x2: 18, y2: 37 });
}

#[test]
fn candidate_room_of_the_largest_rolls_leaves_the_border() {
    let config = MapConfig::standard();
    assert_eq!(candidate_room(&config, 9, 9, 70, 40), Rect { x1: 69, y1: 39, x2: 78, y2: 48 });
    assert_eq!(candidate_room(&config, 6, 6, 73, 43), Rect { x1: 72, y1: 42, x2: 78, y2: 48 });
}

#[test]
fn keep_if_clear_keeps_a_room_that_is_clear() {
    let mut rooms = vec![Rect::new(0, 0, 4, 4)];
    let mut bends = vec![true];
    assert!(keep_if_clear(&mut rooms, &mut bends, Rect::new(10, 10, 4, 4)));
    assert_eq!(rooms, vec![Rect::new(0, 0, 4, 4), Rect::new(10, 10, 4, 4)]);
    assert_eq!(bends, vec![true, false]);
}

#[test]
fn keep_if_clear_keeps_the_first_room() {
    let mut rooms = Vec::new();
    let mut bends = Vec::new();
    assert!(keep_if_clear(&mut rooms, &mut bends, Rect::new(3, 3, 4, 4)));
    assert_eq!(rooms, vec![Rect::new(3, 3, 4, 4)]);
    assert_eq!(bends, vec![false]);
}

#[test]
fn keep_if_clear_drops_a_room_that_overlaps() {
    let mut rooms = vec![Rect::new(0, 0, 4, 4), Rect::new(10, 10, 4, 4)];
    let mut bends = vec![false, true];
    assert!(!keep_if_clear(&mut rooms, &mut bends, Rect::new(12, 12, 4, 4)));
    assert!(!keep_if_clear(&mut rooms, &mut bends, Rect::new(4, 0, 4, 4)));
    assert_eq!(rooms, vec![Rect::new(0, 0, 4, 4), Rect::new(10, 10, 4, 4)]);
    assert_eq!(bends, vec![false, true]);
}

#[test]
fn bend_last_reads_the_coin() {
    let mut bends = vec![true, false, false];
    bend_last(&mut bends, 1);
    assert_eq!(bends, vec![true, false, true]);
    bend_last(&mut bends, 0);
    assert_eq!(bends, vec![true, false, false]);
    bend_last(&mut bends, 2);
    assert_eq!(bends, vec![true, false, false]);
    let mut one = vec![false];
    bend_last(&mut one, 1);
    assert_eq!(one, vec![true]);
}

#[test]
fn fallback_is_the_smallest_room_in_the_corner() {
    assert_eq!(fallback(&MapConfig::standard()), Rect { x1: 0, y1: 0, x2: 6, y2: 6 });
    let config = MapConfig::new(0, 3, 6, 40, 30).unwrap();
    assert_eq!(fallback(&config), Rect { x1: 0, y1: 0, x2: 3, y2: 3 });
}

#[test]
fn placed_rooms_are_what_the_steps_make_of_the_draws() {
    let config = MapConfig::new(15, 3, 6, 40, 30).unwrap();
    for seed in 0..20u64 {
        let mut rng = RandomNumberGenerator::seeded(seed);
        let (rooms, bends) = place_rooms(&config, &mut rng);

        let mut again = RandomNumberGenerator::seeded(seed);
        let mut want_rooms = Vec::new();
        let mut want_bends = Vec::new();
        for _ in 0..15 {
            let w = again.range(3, 7);
            let h = again.range(3, 7);
            let roll_x = again.roll_dice(1, 40 - w - 1);
            let roll_y = again.roll_dice(1, 30 - h - 1);
            let candidate = candidate_room(&config, w, h, roll_x, roll_y);
            let first = want_rooms.is_empty();
            if keep_if_clear(&mut want_rooms, &mut want_bends, candidate) && !first {
                let coin = again.range(0, 2);
                bend_last(&mut want_bends, coin);
            }
        }
        assert_eq!(rooms, want_rooms);
        assert_eq!(bends, want_bends);
    }
}
