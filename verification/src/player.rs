//! What the player can do in a turn, and how it changes the actors.

use vstd::prelude::*;
use crate::components::{
    Actor,
    ActorView,
    Position,
    actor_views,
    actors_on_map,
    blockers_apart,
    find_player,
    one_player,
    player_of,
    same_cast,
    lemma_player_kept,
};
use crate::map::{TileMap, TileMapView};
use crate::movement::{can_enter, may_enter, with_move, lemma_move_keeps_order};

verus! {

/// One action of the player: a step north, south, east or west, or a turn
/// spent waiting.
#[derive(Clone, Copy, Debug, PartialEq, Eq, Structural)]
pub enum PlayerAction {
    North,
    South,
    East,
    West,
    Wait,
}

impl PlayerAction {
    /// How far the action moves the player along the row.
    pub open spec fn delta_x(self) -> int {
        match self {
            PlayerAction::East => 1,
            PlayerAction::West => -1,
            _ => 0,
        }
    }

    /// How far the action moves the player along the column. North is up,
    /// toward row zero.
    pub open spec fn delta_y(self) -> int {
        match self {
            PlayerAction::South => 1,
            PlayerAction::North => -1,
            _ => 0,
        }
    }
}

/// The list of actors after the player has tried to move by
/// `(delta_x, delta_y)`: when the tile there may be entered, the player
/// stands on it and its viewshed is marked stale; otherwise nothing has
/// changed.
pub open spec fn after_player_move(
    map: TileMapView,
    actors: Seq<ActorView>,
    delta_x: int,
    delta_y: int,
) -> Seq<ActorView> {
    let p = player_of(actors);
    let x = actors[p].position.x + delta_x;
    let y = actors[p].position.y + delta_y;
    let to = Position { x: x as i32, y: y as i32 };
    if map.in_bounds(x, y) && can_enter(map, actors, p, to) {
        with_move(actors, p, to)
    } else {
        actors
    }
}

/// The list of actors after the player's action: a step is tried, waiting
/// changes nothing.
pub open spec fn after_player_action(
    map: TileMapView,
    actors: Seq<ActorView>,
    action: PlayerAction,
) -> Seq<ActorView> {
    if action == PlayerAction::Wait {
        actors
    } else {
        after_player_move(map, actors, action.delta_x(), action.delta_y())
    }
}

/// Moves the player by `(delta_x, delta_y)` when the tile there may be
/// entered, and leaves the player in place when it may not.
pub fn try_move_player(delta_x: i32, delta_y: i32, map: &TileMap, actors: &mut Vec<Actor>)
    requires
        map@.sized(),
        actors_on_map(map@, actor_views(old(actors)@)),
        one_player(actor_views(old(actors)@)),
    ensures
        actor_views(final(actors)@) == after_player_move(
            map@,
            actor_views(old(actors)@),
            delta_x as int,
            delta_y as int,
        ),
{
    let ghost cast = actor_views(actors@);
    let p = find_player(actors);
    assert(cast[p as int] == actors@[p as int]@);
    let x: i64 = actors[p].position.x as i64 + delta_x as i64;
    let y: i64 = actors[p].position.y as i64 + delta_y as i64;
    if x < 0 || x >= map.width as i64 || y < 0 || y >= map.height as i64 {
        return ;
    }
    let to = Position { x: x as i32, y: y as i32 };
    if may_enter(map, actors, p, to) {
        actors[p].position = to;
        actors[p].viewshed.dirty = true;
        proof {
            assert(actor_views(actors@) =~= with_move(cast, p as int, to));
        }
    }
}

/// Carries out the player's action.
pub fn act(action: PlayerAction, map: &TileMap, actors: &mut Vec<Actor>)
    requires
        map@.sized(),
        actors_on_map(map@, actor_views(old(actors)@)),
        one_player(actor_views(old(actors)@)),
    ensures
        actor_views(final(actors)@) == after_player_action(
            map@,
            actor_views(old(actors)@),
            action,
        ),
{
    match action {
        PlayerAction::North => try_move_player(0, -1, map, actors),
        PlayerAction::South => try_move_player(0, 1, map, actors),
        PlayerAction::East => try_move_player(1, 0, map, actors),
        PlayerAction::West => try_move_player(-1, 0, map, actors),
        PlayerAction::Wait => {},
    }
}

/// The player's action keeps the cast; it keeps every actor on the map, and
/// the actors that block on tiles of their own.
pub proof fn lemma_player_action_keeps_order(
    map: TileMapView,
    actors: Seq<ActorView>,
    action: PlayerAction,
)
    requires
        one_player(actors),
    ensures
        same_cast(actors, after_player_action(map, actors, action)),
        one_player(after_player_action(map, actors, action)),
        actors_on_map(map, actors) ==> actors_on_map(
            map,
            after_player_action(map, actors, action),
        ),
        blockers_apart(actors) ==> blockers_apart(after_player_action(map, actors, action)),
{
    lemma_player_kept(actors, actors);
    let p = player_of(actors);
    let x = actors[p].position.x + action.delta_x();
    let y = actors[p].position.y + action.delta_y();
    let to = Position { x: x as i32, y: y as i32 };
    if action != PlayerAction::Wait && map.in_bounds(x, y) && can_enter(map, actors, p, to) {
        lemma_move_keeps_order(map, actors, p, to);
    }
    lemma_player_kept(actors, after_player_action(map, actors, action));
}

} // verus!
