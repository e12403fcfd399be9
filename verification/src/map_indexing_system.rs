//! The last stage of a turn: the map's blocking and occupancy state is
//! built anew from where the actors stand.

use vstd::prelude::*;
use crate::components::{Actor, ActorView, actor_views, actors_on_map};
use crate::map::{TileMap, TileMapView, TileType};
use crate::sorted::strictly_increasing;

verus! {

/// Whether actor `i` blocks the tile with index `idx`.
pub open spec fn blocks_at(map: TileMapView, actors: Seq<ActorView>, i: int, idx: int) -> bool {
    actors[i].blocks_tile && actors[i].tile(map) == idx
}

/// Whether one of the first `n` actors blocks the tile with index `idx`.
pub open spec fn blocker_on(map: TileMapView, actors: Seq<ActorView>, n: int, idx: int) -> bool {
    exists|i: int| 0 <= i < n && #[trigger] blocks_at(map, actors, i, idx)
}

/// Whether `content` lists those of the first `n` actors that stand on the
/// tile with index `idx`: each of them once, in increasing order, and no
/// one else.
pub open spec fn lists_occupants(
    map: TileMapView,
    actors: Seq<ActorView>,
    n: int,
    idx: int,
    content: Seq<usize>,
) -> bool {
    &&& strictly_increasing(content)
    &&& forall|k: int|
        0 <= k < content.len() ==> (#[trigger] content[k]) < n && actors[content[k] as int].tile(
            map,
        ) == idx
    &&& forall|i: int|
        0 <= i < n && (#[trigger] actors[i]).tile(map) == idx ==> content.contains(i as usize)
}

impl TileMapView {
    /// Whether the blocking and occupancy state is that of `actors`: a tile
    /// is blocked when it is a wall or an actor that blocks stands on it,
    /// and its content lists the actors that stand on it.
    pub open spec fn indexes(self, actors: Seq<ActorView>) -> bool {
        &&& forall|idx: int|
            0 <= idx < self.area() ==> #[trigger] self.blocked[idx] == (self.tiles[idx]
                == TileType::Wall || blocker_on(self, actors, actors.len() as int, idx))
        &&& forall|idx: int|
            0 <= idx < self.area() ==> lists_occupants(
                self,
                actors,
                actors.len() as int,
                idx,
                #[trigger] self.tile_content[idx],
            )
    }
}

impl TileMap {
    /// Sets the blocked flag of every tile to whether the tile is a wall.
    pub fn populate_blocked(&mut self)
        requires
            old(self)@.sized(),
        ensures
            final(self)@ == (TileMapView { blocked: final(self)@.blocked, ..old(self)@ }),
            final(self)@.blocked.len() == old(self)@.blocked.len(),
            forall|idx: int|
                0 <= idx < old(self)@.area() ==> #[trigger] final(self)@.blocked[idx] == (old(
                    self,
                )@.tiles[idx] == TileType::Wall),
    {
        let n = self.tiles.len();
        let mut i: usize = 0;
        while i < n
            invariant
                i <= n,
                old(self)@.sized(),
                n == old(self)@.area(),
                self@ == (TileMapView { blocked: self@.blocked, ..old(self)@ }),
                self@.blocked.len() == n,
                forall|idx: int|
                    0 <= idx < i ==> #[trigger] self@.blocked[idx] == (old(self)@.tiles[idx]
                        == TileType::Wall),
            decreases n - i,
        {
            let wall = self.tiles[i] == TileType::Wall;
            self.blocked[i] = wall;
            i += 1;
        }
    }

    /// Empties the content list of every tile.
    pub fn clear_content_index(&mut self)
        requires
            old(self)@.sized(),
        ensures
            final(self)@ == (TileMapView { tile_content: final(self)@.tile_content, ..old(self)@ }),
            final(self)@.tile_content.len() == old(self)@.tile_content.len(),
            forall|idx: int|
                0 <= idx < old(self)@.area() ==> (#[trigger] final(self)@.tile_content[idx]).len()
                    == 0,
    {
        let n = self.tile_content.len();
        let mut i: usize = 0;
        while i < n
            invariant
                i <= n,
                old(self)@.sized(),
                n == old(self)@.area(),
                self@ == (TileMapView { tile_content: self@.tile_content, ..old(self)@ }),
                self@.tile_content.len() == n,
                forall|idx: int| 0 <= idx < i ==> (#[trigger] self@.tile_content[idx]).len() == 0,
            decreases n - i,
        {
            let ghost before = self@;
            self.tile_content[i].clear();
            proof {
                assert forall|idx: int| 0 <= idx < i implies (#[trigger] self@.tile_content[idx]).len()
                    == 0 by {
                    assert(before.tile_content[idx].len() == 0);
                }
            }
            i += 1;
        }
    }
}

/// The stage of a turn that builds the map's index of the actors.
pub struct MapIndexingSystem {}

impl MapIndexingSystem {
    /// Builds the blocking and occupancy state anew: nothing of the old
    /// state is kept.
    pub fn run(&mut self, map: &mut TileMap, actors: &Vec<Actor>)
        requires
            old(map)@.sized(),
            actors_on_map(old(map)@, actor_views(actors@)),
        ensures
            final(map)@ == (TileMapView {
                blocked: final(map)@.blocked,
                tile_content: final(map)@.tile_content,
                ..old(map)@
            }),
            final(map)@.sized(),
            final(map)@.indexes(actor_views(actors@)),
    {
        map.populate_blocked();
        map.clear_content_index();
        let ghost cast = actor_views(actors@);
        let ghost area = map@.area();
        let mut i: usize = 0;
        while i < actors.len()
            invariant
                i <= actors@.len(),
                cast == actor_views(actors@),
                area == map@.area(),
                old(map)@.sized(),
                map@.sized(),
                actors_on_map(map@, cast),
                map@ == (TileMapView {
                    blocked: map@.blocked,
                    tile_content: map@.tile_content,
                    ..old(map)@
                }),
                forall|idx: int|
                    0 <= idx < area ==> #[trigger] map@.blocked[idx] == (map@.tiles[idx]
                        == TileType::Wall || blocker_on(map@, cast, i as int, idx)),
                forall|idx: int|
                    0 <= idx < area ==> lists_occupants(
                        map@,
                        cast,
                        i as int,
                        idx,
                        #[trigger] map@.tile_content[idx],
                    ),
            decreases actors@.len() - i,
        {
            let x = actors[i].position.x;
            let y = actors[i].position.y;
            let ghost before = map@;
            proof {
                assert(cast[i as int] == actors@[i as int]@);
            }
            let at = map.xy_idx(x, y);
            map.tile_content[at].push(i);
            if actors[i].blocks_tile {
                map.blocked[at] = true;
            }
            proof {
                let now = map@;
                assert(cast[i as int].tile(now) == at);
                assert forall|idx: int| 0 <= idx < area implies #[trigger] now.blocked[idx] == (
                now.tiles[idx] == TileType::Wall || blocker_on(now, cast, i + 1, idx)) by {
                    let was = blocker_on(before, cast, i as int, idx);
                    assert(before.blocked[idx] == (before.tiles[idx] == TileType::Wall || was));
                    if was {
                        let b = choose|b: int| 0 <= b < i && #[trigger] blocks_at(before, cast, b, idx);
                        assert(blocks_at(now, cast, b, idx));
                    }
                    if blocks_at(now, cast, i as int, idx) {
                        assert(idx == at);
                    }
                    if blocker_on(now, cast, i + 1, idx) {
                        let b = choose|b: int| 0 <= b < i + 1 && #[trigger] blocks_at(now, cast, b, idx);
                        if b < i {
                            assert(blocks_at(before, cast, b, idx));
                        }
                    }
                }
                assert forall|idx: int| 0 <= idx < area implies lists_occupants(
                    now,
                    cast,
                    i + 1,
                    idx,
                    #[trigger] now.tile_content[idx],
                ) by {
                    let old_list = before.tile_content[idx];
                    let new_list = now.tile_content[idx];
                    assert(lists_occupants(before, cast, i as int, idx, old_list));
                    if idx == at {
                        assert(new_list == old_list.push(i));
                        assert forall|j: int|
                            0 <= j < i + 1 && (#[trigger] cast[j]).tile(now) == idx implies new_list.contains(
                            j as usize,
                        ) by {
                            if j < i {
                                assert(cast[j].tile(before) == idx);
                                assert(old_list.contains(j as usize));
                                let k = choose|k: int| 0 <= k < old_list.len() && old_list[k] == j as usize;
                                assert(new_list[k] == j as usize);
                            } else {
                                assert(new_list[old_list.len() as int] == i);
                            }
                        }
                    } else {
                        assert(new_list == old_list);
                        assert forall|j: int|
                            0 <= j < i + 1 && (#[trigger] cast[j]).tile(now) == idx implies new_list.contains(
                            j as usize,
                        ) by {
                            assert(cast[j].tile(before) == idx);
                        }
                    }
                }
            }
            i += 1;
        }
    }
}

} // verus!
