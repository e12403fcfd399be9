//! The starting cast of a map: one monster in every room but the first, and
//! the player in the first.

use vstd::prelude::*;
use crate::components::{
    Actor,
    ActorView,
    MonsterKind,
    Position,
    Role,
    Viewshed,
    ViewshedView,
    actor_views,
    actors_on_map,
    blockers_apart,
    one_player,
};
use crate::map::{TileMap, TileMapView, lemma_centers};
use crate::random::roll_dice;
use crate::rect::Rect;
use rltk::RandomNumberGenerator;

verus! {

/// The sight range that every actor starts with.
pub const SIGHT_RANGE: i32 = 8;

/// The kind of monster that a roll of a two-sided die stands for.
pub open spec fn kind_for_roll(roll: int) -> MonsterKind {
    if roll == 1 {
        MonsterKind::Goblin
    } else {
        MonsterKind::Orc
    }
}

/// An actor as it enters the game: in the center of `room`, with nothing
/// seen yet and a stale viewshed of the starting sight range.
pub open spec fn newcomer(room: Rect, role: Role, blocks_tile: bool) -> ActorView {
    ActorView {
        position: Position { x: room.center_x() as i32, y: room.center_y() as i32 },
        viewshed: ViewshedView {
            visible_tiles: Seq::empty(),
            range: SIGHT_RANGE as int,
            dirty: true,
        },
        role,
        blocks_tile,
    }
}

/// Whether `actors` is a starting cast for `map`: one monster in each room
/// but the first, in the order of the rooms, each blocking its tile; then
/// the player in the first room, who does not block.
pub open spec fn starting_cast(map: TileMapView, actors: Seq<ActorView>) -> bool {
    &&& actors.len() == map.rooms.len()
    &&& forall|i: int|
        0 <= i < actors.len() - 1 ==> (#[trigger] actors[i]).is_monster() && actors[i] == newcomer(
            map.rooms[i + 1],
            actors[i].role,
            true,
        )
    &&& actors[actors.len() - 1] == newcomer(map.rooms[0], Role::Player, false)
}

/// The kind of monster that a roll of a two-sided die stands for: a goblin
/// for a one, an orc otherwise.
pub fn monster_kind(roll: i32) -> (kind: MonsterKind)
    ensures
        kind == kind_for_roll(roll as int),
{
    if roll == 1 {
        MonsterKind::Goblin
    } else {
        MonsterKind::Orc
    }
}

fn enter(room: &Rect, role: Role, blocks_tile: bool) -> (actor: Actor)
    ensures
        actor@ == newcomer(*room, role, blocks_tile),
        actor.position.x == room.center_x(),
        actor.position.y == room.center_y(),
{
    let (x, y) = room.center();
    Actor {
        position: Position { x, y },
        viewshed: Viewshed { visible_tiles: Vec::new(), range: SIGHT_RANGE, dirty: true },
        role,
        blocks_tile,
    }
}

/// The starting cast of `map`. Which kind each monster is depends on the
/// generator.
pub fn spawn_actors(map: &TileMap, rng: &mut RandomNumberGenerator) -> (actors: Vec<Actor>)
    requires
        map@.wf(),
    ensures
        starting_cast(map@, actor_views(actors@)),
        actors_on_map(map@, actor_views(actors@)),
        one_player(actor_views(actors@)),
        blockers_apart(actor_views(actors@)),
{
    let mut actors: Vec<Actor> = Vec::new();
    let mut i: usize = 1;
    while i < map.rooms.len()
        invariant
            map@.wf(),
            1 <= i <= map@.rooms.len(),
            actors@.len() == i - 1,
            forall|k: int|
                0 <= k < i - 1 ==> (#[trigger] actor_views(actors@)[k]).is_monster() && actor_views(
                    actors@,
                )[k] == newcomer(map@.rooms[k + 1], actor_views(actors@)[k].role, true),
        decreases map@.rooms.len() - i,
    {
        let roll = roll_dice(rng, 1, 2);
        let monster = enter(&map.rooms[i], Role::Monster(monster_kind(roll)), true);
        let ghost before = actor_views(actors@);
        actors.push(monster);
        proof {
            let now = actor_views(actors@);
            assert forall|k: int| 0 <= k < i implies (#[trigger] now[k]).is_monster() && now[k]
                == newcomer(map@.rooms[k + 1], now[k].role, true) by {
                if k < i - 1 {
                    assert(now[k] == before[k]);
                }
            }
        }
        i += 1;
    }
    let ghost monsters = actor_views(actors@);
    let player = enter(&map.rooms[0], Role::Player, false);
    actors.push(player);
    proof {
        let cast = actor_views(actors@);
        let n = cast.len() as int;
        assert forall|k: int| 0 <= k < n - 1 implies (#[trigger] cast[k]).is_monster() && cast[k]
            == newcomer(map@.rooms[k + 1], cast[k].role, true) by {
            assert(cast[k] == monsters[k]);
        }
        assert(cast[n - 1].is_player());
        assert forall|k: int| 0 <= k < n implies map@.in_bounds(
            (#[trigger] cast[k]).position.x as int,
            cast[k].position.y as int,
        ) by {
            if k < n - 1 {
                lemma_centers(map@, k + 1, 0);
            } else {
                lemma_centers(map@, 0, 0);
            }
        }
        assert forall|a: int, b: int|
            0 <= a < b < n && (#[trigger] cast[a]).blocks_tile && (
            #[trigger] cast[b]).blocks_tile implies cast[a].position != cast[b].position by {
            lemma_centers(map@, a + 1, b + 1);
        }
    }
    actors
}

} // verus!
