//! Which tiles an actor may step on, for the player and for monsters alike.

use vstd::prelude::*;
use crate::components::{Actor, ActorView, Position, actor_views, actors_on_map, blockers_apart, same_cast};
use crate::map::{TileMap, TileMapView, TileType};

verus! {

/// Whether actor `who` may step on the tile `to`: the tile is on the map, it
/// is floor, the map's index does not have it blocked, and no other actor
/// that blocks stands on it at this moment.
pub open spec fn can_enter(map: TileMapView, actors: Seq<ActorView>, who: int, to: Position) -> bool {
    &&& map.in_bounds(to.x as int, to.y as int)
    &&& map.tile_at(to.x as int, to.y as int) == TileType::Floor
    &&& !map.blocked[map.index_of(to.x as int, to.y as int)]
    &&& forall|j: int|
        0 <= j < actors.len() && j != who && (#[trigger] actors[j]).blocks_tile
            ==> actors[j].position != to
}

/// The list of actors after actor `who` has stepped on `to`.
pub open spec fn with_move(actors: Seq<ActorView>, who: int, to: Position) -> Seq<ActorView> {
    actors.update(who, actors[who].moved_to(to))
}

/// Whether actor `who` may step on the tile `to`.
pub fn may_enter(map: &TileMap, actors: &Vec<Actor>, who: usize, to: Position) -> (ok: bool)
    requires
        map@.sized(),
    ensures
        ok == can_enter(map@, actor_views(actors@), who as int, to),
{
    if !map.in_bounds(to.x, to.y) {
        return false;
    }
    let idx = map.xy_idx(to.x, to.y);
    if map.tiles[idx] != TileType::Floor || map.blocked[idx] {
        return false;
    }
    let ghost cast = actor_views(actors@);
    let mut j: usize = 0;
    while j < actors.len()
        invariant
            j <= actors@.len(),
            cast == actor_views(actors@),
            forall|k: int|
                0 <= k < j && k != who && (#[trigger] cast[k]).blocks_tile ==> cast[k].position
                    != to,
        decreases actors@.len() - j,
    {
        if j != who && actors[j].blocks_tile && actors[j].position.x == to.x
            && actors[j].position.y == to.y {
            assert(cast[j as int].position == to);
            return false;
        }
        assert(cast[j as int] == actors@[j as int]@);
        j += 1;
    }
    true
}

/// A step on a tile that may be entered keeps every actor on the map, keeps
/// the cast, and keeps the actors that block on tiles of their own.
pub proof fn lemma_move_keeps_order(map: TileMapView, actors: Seq<ActorView>, who: int, to: Position)
    requires
        0 <= who < actors.len(),
        can_enter(map, actors, who, to),
    ensures
        same_cast(actors, with_move(actors, who, to)),
        actors_on_map(map, actors) ==> actors_on_map(map, with_move(actors, who, to)),
        blockers_apart(actors) ==> blockers_apart(with_move(actors, who, to)),
{
    let after = with_move(actors, who, to);
    if blockers_apart(actors) {
        assert forall|i: int, j: int|
            0 <= i < j < after.len() && (#[trigger] after[i]).blocks_tile && (
            #[trigger] after[j]).blocks_tile implies after[i].position != after[j].position by {
            if i != who && j != who {
                assert(actors[i].blocks_tile && actors[j].blocks_tile);
            } else if i == who {
                assert(actors[j].blocks_tile);
            } else {
                assert(actors[i].blocks_tile);
            }
        }
    }
    if actors_on_map(map, actors) {
        assert forall|i: int| 0 <= i < after.len() implies map.in_bounds(
            (#[trigger] after[i]).position.x as int,
            after[i].position.y as int,
        ) by {
            if i != who {
                assert(actors[i] == after[i]);
            }
        }
    }
}

} // verus!
