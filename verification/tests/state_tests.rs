use dungeon_core::map_builder::MapConfig;
use dungeon_core::player::{act, try_move_player, PlayerAction};
use dungeon_core::spawner::{monster_kind, spawn_actors};
use dungeon_core::visibility_system::field_of_view;
use dungeon_core::{
    Actor, MonsterKind, Position, Rect, Role, RunState, State, TileMap, TileType, Viewshed,
};
use rltk::RandomNumberGenerator;

fn two_room_map() -> TileMap {
    let rooms = vec![Rect::new(2, 2, 4, 4), Rect::new(12, 12, 4, 4)];
    TileMap::from_rooms(20, 20, rooms, vec![false, true]).unwrap()
}

fn monster(x: i32, y: i32) -> Actor {
    Actor {
        position: Position { x, y },
        viewshed: Viewshed { visible_tiles: Vec::new(), range: 8, dirty: true },
        role: Role::Monster(MonsterKind::Orc),
        blocks_tile: true,
    }
}

fn player(x: i32, y: i32) -> Actor {
    Actor {
        position: Position { x, y },
        viewshed: Viewshed { visible_tiles: Vec::new(), range: 8, dirty: true },
        role: Role::Player,
        blocks_tile: false,
    }
}

fn small_state() -> State {
    State {
        map: two_room_map(),
        actors: vec![monster(14, 14), player(4, 4)],
        runstate: RunState::Running,
    }
}

fn blockers_share_no_tile(state: &State) -> bool {
    for (i, a) in state.actors.iter().enumerate() {
        for b in state.actors.iter().skip(i + 1) {
            if a.blocks_tile && b.blocks_tile && a.position == b.position {
                return false;
            }
        }
    }
    true
}

fn index_is_current(state: &State) -> bool {
    let map = &state.map;
    for idx in 0..map.tiles.len() {
        let here: Vec<usize> = (0..state.actors.len())
            .filter(|i| {
                let p = state.actors[*i].position;
                map.xy_idx(p.x, p.y) == idx
            })
            .collect();
        if map.tile_content[idx] != here {
            return false;
        }
        let blocker = here.iter().filter(|i| state.actors[**i].blocks_tile).count();
        if blocker > 1 {
            return false;
        }
        if map.blocked[idx] != (map.tiles[idx] == TileType::Wall || blocker == 1) {
            return false;
        }
    }
    true
}

#[test]
fn monster_kind_reads_the_die() {
    assert_eq!(monster_kind(1), MonsterKind::Goblin);
    assert_eq!(monster_kind(2), MonsterKind::Orc);
    assert_eq!(monster_kind(0), MonsterKind::Orc);
}

#[test]
fn spawn_puts_monsters_in_later_rooms_and_the_player_in_the_first() {
    let rooms = vec![Rect::new(2, 2, 4, 4), Rect::new(12, 12, 4, 4), Rect::new(2, 12, 4, 4)];
    let map = TileMap::from_rooms(20, 20, rooms, vec![false, true, false]).unwrap();
    let mut rng = RandomNumberGenerator::seeded(1);
    let actors = spawn_actors(&map, &mut rng);
    assert_eq!(actors.len(), 3);
    assert_eq!(actors[0].position, Position { x: 14, y: 14 });
    assert_eq!(actors[1].position, Position { x: 4, y: 14 });
    assert_eq!(actors[2].position, Position { x: 4, y: 4 });
    assert_eq!(actors[2].role, Role::Player);
    assert!(!actors[2].blocks_tile);
    for m in actors.iter().take(2) {
        assert!(m.role != Role::Player);
        assert!(m.blocks_tile);
    }
    for a in actors.iter() {
        assert!(a.viewshed.dirty);
        assert_eq!(a.viewshed.range, 8);
        assert!(a.viewshed.visible_tiles.is_empty());
    }
}

#[test]
fn spawned_monsters_are_of_both_kinds() {
    let mut goblins = 0;
    let mut orcs = 0;
    for seed in 0..10u64 {
        let mut rng = RandomNumberGenerator::seeded(seed);
        let state = State::new(&MapConfig::standard(), &mut rng);
        for a in state.actors.iter() {
            match a.role {
                Role::Monster(MonsterKind::Goblin) => goblins += 1,
                Role::Monster(MonsterKind::Orc) => orcs += 1,
                Role::Player => {}
            }
        }
    }
    assert!(goblins > 0);
    assert!(orcs > 0);
}

#[test]
fn new_state_is_running_with_one_actor_per_room() {
    for seed in 0..20u64 {
        let mut rng = RandomNumberGenerator::seeded(seed);
        let state = State::new(&MapConfig::standard(), &mut rng);
        assert_eq!(state.runstate, RunState::Running);
        assert_eq!(state.map.width, 80);
        assert_eq!(state.map.height, 50);
        assert_eq!(state.actors.len(), state.map.rooms.len());
        let last = state.actors.len() - 1;
        for (i, a) in state.actors.iter().enumerate() {
            let room = if i == last { state.map.rooms[0] } else { state.map.rooms[i + 1] };
            let (x, y) = room.center();
            assert_eq!(a.position, Position { x, y });
            assert_eq!(a.role == Role::Player, i == last);
            assert_eq!(a.blocks_tile, i != last);
            assert_eq!(state.map.tiles[state.map.xy_idx(x, y)], TileType::Floor);
        }
        assert!(blockers_share_no_tile(&state));
    }
}

#[test]
fn running_tick_runs_the_turn_and_pauses() {
    let mut state = small_state();
    state.tick(Some(PlayerAction::East));
    assert_eq!(state.runstate, RunState::Paused);
    assert_eq!(state.actors[1].position, Position { x: 4, y: 4 });
    assert!(!state.actors[0].viewshed.dirty);
    assert!(!state.actors[1].viewshed.dirty);
    let seen = field_of_view(&state.map, 4, 4, 8);
    assert_eq!(state.actors[1].viewshed.visible_tiles, seen);
    for idx in 0..400usize {
        assert_eq!(state.map.visible_tiles[idx], seen.contains(&idx));
        assert_eq!(state.map.revealed_tiles[idx], seen.contains(&idx));
    }
    assert!(index_is_current(&state));
}

#[test]
fn paused_tick_without_action_changes_nothing() {
    let mut state = small_state();
    state.tick(None);
    let positions: Vec<Position> = state.actors.iter().map(|a| a.position).collect();
    let visible = state.map.visible_tiles.clone();
    let revealed = state.map.revealed_tiles.clone();
    let blocked = state.map.blocked.clone();
    for _ in 0..3 {
        state.tick(None);
        assert_eq!(state.runstate, RunState::Paused);
        let now: Vec<Position> = state.actors.iter().map(|a| a.position).collect();
        assert_eq!(now, positions);
        assert_eq!(state.map.visible_tiles, visible);
        assert_eq!(state.map.revealed_tiles, revealed);
        assert_eq!(state.map.blocked, blocked);
        assert!(state.actors.iter().all(|a| !a.viewshed.dirty));
    }
}

#[test]
fn paused_tick_with_a_step_moves_the_player_and_runs() {
    let mut state = small_state();
    state.tick(None);
    state.tick(Some(PlayerAction::East));
    assert_eq!(state.runstate, RunState::Running);
    assert_eq!(state.actors[1].position, Position { x: 5, y: 4 });
    assert!(state.actors[1].viewshed.dirty);
    assert_eq!(state.actors[0].position, Position { x: 14, y: 14 });
    state.tick(None);
    assert_eq!(state.runstate, RunState::Paused);
    assert_eq!(state.actors[1].viewshed.visible_tiles, field_of_view(&state.map, 5, 4, 8));
}

#[test]
fn every_direction_moves_by_one_tile() {
    for (action, want) in [
        (PlayerAction::North, Position { x: 4, y: 3 }),
        (PlayerAction::South, Position { x: 4, y: 5 }),
        (PlayerAction::East, Position { x: 5, y: 4 }),
        (PlayerAction::West, Position { x: 3, y: 4 }),
        (PlayerAction::Wait, Position { x: 4, y: 4 }),
    ] {
        let map = two_room_map();
        let mut actors = vec![monster(14, 14), player(4, 4)];
        actors[1].viewshed.dirty = false;
        act(action, &map, &mut actors);
        assert_eq!(actors[1].position, want);
        assert_eq!(actors[1].viewshed.dirty, action != PlayerAction::Wait);
        assert_eq!(actors[0].position, Position { x: 14, y: 14 });
    }
}

#[test]
fn waiting_starts_a_turn_without_moving() {
    let mut state = small_state();
    state.tick(None);
    state.tick(Some(PlayerAction::Wait));
    assert_eq!(state.runstate, RunState::Running);
    assert_eq!(state.actors[1].position, Position { x: 4, y: 4 });
    assert!(!state.actors[1].viewshed.dirty);
}

#[test]
fn the_player_does_not_walk_into_a_wall() {
    let map = two_room_map();
    let mut actors = vec![monster(14, 14), player(3, 3)];
    actors[1].viewshed.dirty = false;
    try_move_player(-1, 0, &map, &mut actors);
    assert_eq!(actors[1].position, Position { x: 3, y: 3 });
    assert!(!actors[1].viewshed.dirty);
    try_move_player(0, -1, &map, &mut actors);
    assert_eq!(actors[1].position, Position { x: 3, y: 3 });
    try_move_player(1, 1, &map, &mut actors);
    assert_eq!(actors[1].position, Position { x: 4, y: 4 });
    assert!(actors[1].viewshed.dirty);
}

#[test]
fn the_player_does_not_leave_the_map() {
    let map = two_room_map();
    let mut actors = vec![player(4, 4)];
    try_move_player(-5, 0, &map, &mut actors);
    assert_eq!(actors[0].position, Position { x: 4, y: 4 });
    try_move_player(i32::MAX, i32::MAX, &map, &mut actors);
    assert_eq!(actors[0].position, Position { x: 4, y: 4 });
    try_move_player(i32::MIN, 0, &map, &mut actors);
    assert_eq!(actors[0].position, Position { x: 4, y: 4 });
}

#[test]
fn the_player_does_not_walk_into_a_monster() {
    let map = two_room_map();
    let mut actors = vec![monster(5, 4), player(4, 4)];
    try_move_player(1, 0, &map, &mut actors);
    assert_eq!(actors[1].position, Position { x: 4, y: 4 });
    actors[0].blocks_tile = false;
    try_move_player(1, 0, &map, &mut actors);
    assert_eq!(actors[1].position, Position { x: 5, y: 4 });
}

#[test]
fn the_player_does_not_walk_onto_a_tile_the_index_has_blocked() {
    let mut map = two_room_map();
    let idx = map.xy_idx(5, 4);
    map.blocked[idx] = true;
    let mut actors = vec![player(4, 4)];
    try_move_player(1, 0, &map, &mut actors);
    assert_eq!(actors[0].position, Position { x: 4, y: 4 });
}

#[test]
fn monster_in_the_scenario_steps_next_to_the_player() {
    let mut state = State {
        map: two_room_map(),
        actors: vec![monster(5, 5), player(4, 4)],
        runstate: RunState::Running,
    };
    state.tick(None);
    assert_eq!(state.actors[0].position, Position { x: 4, y: 5 });
    assert_eq!(state.actors[1].position, Position { x: 4, y: 4 });
    assert!(state.map.blocked[state.map.xy_idx(4, 5)]);
    assert!(!state.map.blocked[state.map.xy_idx(5, 5)]);
    assert_eq!(state.map.tile_content[state.map.xy_idx(4, 5)], vec![0]);
    assert_eq!(state.map.tile_content[state.map.xy_idx(4, 4)], vec![1]);
}

#[test]
fn run_systems_keeps_the_run_state() {
    let mut state = small_state();
    state.run_systems();
    assert_eq!(state.runstate, RunState::Running);
    state.runstate = RunState::Paused;
    state.run_systems();
    assert_eq!(state.runstate, RunState::Paused);
}

#[test]
fn a_game_keeps_its_order_over_many_turns() {
    let actions = [
        PlayerAction::East,
        PlayerAction::South,
        PlayerAction::West,
        PlayerAction::North,
        PlayerAction::Wait,
        PlayerAction::East,
        PlayerAction::East,
    ];
    for seed in 0..8u64 {
        let mut rng = RandomNumberGenerator::seeded(seed);
        let mut state = State::new(&MapConfig::standard(), &mut rng);
        let tiles = state.map.tiles.clone();
        let rooms = state.map.rooms.clone();
        let mut revealed = state.map.revealed_tiles.clone();
        for turn in 0..60 {
            let was = state.runstate;
            state.tick(Some(actions[turn % actions.len()]));
            assert!(was != state.runstate);
            assert_eq!(state.map.tiles, tiles);
            assert_eq!(state.map.rooms, rooms);
            assert!(blockers_share_no_tile(&state));
            for a in state.actors.iter() {
                assert!(state.map.in_bounds(a.position.x, a.position.y));
                let idx = state.map.xy_idx(a.position.x, a.position.y);
                assert_eq!(tiles[idx], TileType::Floor);
            }
            for idx in 0..revealed.len() {
                if revealed[idx] {
                    assert!(state.map.revealed_tiles[idx]);
                }
            }
            revealed = state.map.revealed_tiles.clone();
            if was == RunState::Running {
                assert!(index_is_current(&state));
                let last = state.actors.len() - 1;
                for idx in 0..revealed.len() {
                    assert_eq!(
                        state.map.visible_tiles[idx],
                        state.actors[last].viewshed.visible_tiles.contains(&idx)
                    );
                }
            }
        }
    }
}

#[test]
fn a_state_with_one_player_on_the_map_is_playable() {
    assert!(small_state().is_playable());
    let mut rng = RandomNumberGenerator::seeded(4);
    assert!(State::new(&MapConfig::standard(), &mut rng).is_playable());
}

#[test]
fn a_state_without_a_player_is_not_playable() {
    let mut state = small_state();
    state.actors.pop();
    assert!(!state.is_playable());
    state.actors.clear();
    assert!(!state.is_playable());
}

#[test]
fn a_state_with_two_players_is_not_playable() {
    let mut state = small_state();
    state.actors.push(player(5, 5));
    assert!(!state.is_playable());
}

#[test]
fn a_state_with_an_actor_off_the_map_is_not_playable() {
    for (x, y) in [(-1, 4), (4, -1), (20, 4), (4, 20)] {
        let mut state = small_state();
        state.actors[0].position = Position { x, y };
        assert!(!state.is_playable());
    }
}

#[test]
fn a_state_with_a_map_of_the_wrong_size_is_not_playable() {
    let mut state = small_state();
    state.map.blocked.pop();
    assert!(!state.is_playable());
    let mut state = small_state();
    state.map.width = 19;
    assert!(!state.is_playable());
    let mut state = small_state();
    state.map.tile_content.push(Vec::new());
    assert!(!state.is_playable());
}
