//! The first stage of a turn: every stale viewshed is computed anew, and the
//! map learns what the player sees.

use vstd::prelude::*;
use crate::components::{
    Actor,
    ActorView,
    Role,
    actor_views,
    actors_on_map,
    one_player,
    player_of,
    lemma_player_unique,
};
use crate::grid::{
    scans_before,
    tile_x,
    tile_y,
    lemma_tile_coordinates,
    lemma_tile_index_inverse,
    lemma_tile_index_monotonic,
};
use crate::map::{TileMap, TileMapView};
use crate::sight::chebyshev;
use crate::sorted::strictly_increasing;

verus! {

/// The indices of the tiles that an actor at `(x, y)` sees with sight range
/// `range`, in increasing order. A range that is not positive sees nothing.
pub fn field_of_view(map: &TileMap, x: i32, y: i32, range: i32) -> (seen: Vec<usize>)
    requires
        map@.sized(),
        map@.in_bounds(x as int, y as int),
    ensures
        map@.is_field_of_view(x as int, y as int, range as int, seen@),
        range <= 0 ==> seen@.len() == 0,
{
    let mut seen: Vec<usize> = Vec::new();
    if range <= 0 {
        return seen;
    }
    let x_lo: i32 = if x < range { 0 } else { x - range };
    let y_lo: i32 = if y < range { 0 } else { y - range };
    let x_hi: i32 = if map.width - 1 - x < range { map.width - 1 } else { x + range };
    let y_hi: i32 = if map.height - 1 - y < range { map.height - 1 } else { y + range };
    let ghost m = map@;
    let ghost w = map@.width;
    let mut by: i32 = y_lo;
    while by <= y_hi
        invariant
            m == map@,
            w == m.width,
            m.sized(),
            m.in_bounds(x as int, y as int),
            range > 0,
            0 <= x_lo <= x <= x_hi < m.width,
            0 <= y_lo <= y <= y_hi < m.height,
            y_lo <= by <= y_hi + 1,
            x - range <= x_lo,
            y - range <= y_lo,
            x_hi <= x + range,
            y_hi <= y + range,
            x_lo == 0 || x_lo == x - range,
            y_lo == 0 || y_lo == y - range,
            x_hi == m.width - 1 || x_hi == x + range,
            y_hi == m.height - 1 || y_hi == y + range,
            strictly_increasing(seen@),
            forall|k: int|
                0 <= k < seen@.len() ==> m.sees_index(
                    x as int,
                    y as int,
                    range as int,
                    #[trigger] seen@[k] as int,
                ) && tile_y(w, seen@[k] as int) < by,
            forall|idx: int| #[trigger]
                m.sees_index(x as int, y as int, range as int, idx) && tile_y(w, idx) < by
                    ==> seen@.contains(idx as usize),
        decreases y_hi + 1 - by,
    {
        let mut bx: i32 = x_lo;
        proof {
            assert forall|idx: int| #[trigger]
                m.sees_index(x as int, y as int, range as int, idx) && scans_before(
                    tile_x(w, idx),
                    tile_y(w, idx),
                    bx as int,
                    by as int,
                ) implies seen@.contains(idx as usize) by {
                lemma_tile_coordinates(w, m.height, idx);
            }
        }
        while bx <= x_hi
            invariant
                m == map@,
                w == m.width,
                m.sized(),
                m.in_bounds(x as int, y as int),
                range > 0,
                0 <= x_lo <= x <= x_hi < m.width,
                0 <= y_lo <= y <= y_hi < m.height,
                y_lo <= by <= y_hi,
                x_lo <= bx <= x_hi + 1,
                x - range <= x_lo,
                y - range <= y_lo,
                x_hi <= x + range,
                y_hi <= y + range,
                x_lo == 0 || x_lo == x - range,
                y_lo == 0 || y_lo == y - range,
                x_hi == m.width - 1 || x_hi == x + range,
                y_hi == m.height - 1 || y_hi == y + range,
                strictly_increasing(seen@),
                forall|k: int|
                    0 <= k < seen@.len() ==> m.sees_index(
                        x as int,
                        y as int,
                        range as int,
                        #[trigger] seen@[k] as int,
                    ) && scans_before(
                        tile_x(w, seen@[k] as int),
                        tile_y(w, seen@[k] as int),
                        bx as int,
                        by as int,
                    ),
                forall|idx: int| #[trigger]
                    m.sees_index(x as int, y as int, range as int, idx) && scans_before(
                        tile_x(w, idx),
                        tile_y(w, idx),
                        bx as int,
                        by as int,
                    ) ==> seen@.contains(idx as usize),
            decreases x_hi + 1 - bx,
        {
            proof {
                lemma_tile_index_inverse(w, bx as int, by as int);
            }
            let idx = map.xy_idx(bx, by);
            let clear = map.has_line_of_sight(x, y, bx, by);
            let ghost before = seen@;
            if clear {
                proof {
                    assert(chebyshev(x as int, y as int, bx as int, by as int) <= range);
                    assert(m.sees_index(x as int, y as int, range as int, idx as int));
                    assert forall|k: int| 0 <= k < before.len() implies before[k] < idx by {
                        let e = before[k] as int;
                        assert(m.sees_index(x as int, y as int, range as int, e));
                        lemma_tile_coordinates(w, m.height, e);
                        lemma_tile_index_monotonic(
                            w,
                            tile_x(w, e),
                            tile_y(w, e),
                            bx as int,
                            by as int,
                        );
                    }
                }
                seen.push(idx);
                proof {
                    assert forall|k: int| 0 <= k < seen@.len() implies m.sees_index(
                        x as int,
                        y as int,
                        range as int,
                        #[trigger] seen@[k] as int,
                    ) && scans_before(
                        tile_x(w, seen@[k] as int),
                        tile_y(w, seen@[k] as int),
                        bx + 1,
                        by as int,
                    ) by {
                        if k < before.len() {
                            assert(seen@[k] == before[k]);
                        }
                    }
                }
            }
            proof {
                assert forall|other: int| #[trigger]
                    m.sees_index(x as int, y as int, range as int, other) && scans_before(
                        tile_x(w, other),
                        tile_y(w, other),
                        bx + 1,
                        by as int,
                    ) implies seen@.contains(other as usize) by {
                    lemma_tile_coordinates(w, m.height, other);
                    if scans_before(tile_x(w, other), tile_y(w, other), bx as int, by as int) {
                        assert(before.contains(other as usize));
                        let k = choose|k: int| 0 <= k < before.len() && before[k] == other as usize;
                        assert(seen@[k] == other as usize);
                    } else {
                        assert(other == idx);
                        assert(clear);
                        assert(seen@[before.len() as int] == idx);
                    }
                }
            }
            bx += 1;
        }
        proof {
            assert forall|idx: int| #[trigger]
                m.sees_index(x as int, y as int, range as int, idx) && tile_y(w, idx) < by + 1
                implies seen@.contains(idx as usize) by {
                lemma_tile_coordinates(w, m.height, idx);
            }
        }
        by += 1;
    }
    proof {
        assert forall|idx: int| #[trigger]
            m.sees_index(x as int, y as int, range as int, idx) implies seen@.contains(
            idx as usize,
        ) by {
            lemma_tile_coordinates(w, m.height, idx);
        }
    }
    seen
}

impl TileMapView {
    /// Whether this map is `before` after the player has looked around and
    /// seen the tiles `seen`: exactly those tiles are visible now, they have
    /// joined the revealed tiles, and nothing else has changed.
    pub open spec fn shows(self, before: TileMapView, seen: Seq<usize>) -> bool {
        &&& self == (TileMapView {
            visible_tiles: self.visible_tiles,
            revealed_tiles: self.revealed_tiles,
            ..before
        })
        &&& self.visible_tiles.len() == before.visible_tiles.len()
        &&& self.revealed_tiles.len() == before.revealed_tiles.len()
        &&& forall|idx: int|
            0 <= idx < self.visible_tiles.len() ==> #[trigger] self.visible_tiles[idx]
                == seen.contains(idx as usize)
        &&& forall|idx: int|
            0 <= idx < self.revealed_tiles.len() ==> #[trigger] self.revealed_tiles[idx] == (
            before.revealed_tiles[idx] || seen.contains(idx as usize))
    }
}

impl TileMap {
    /// Replaces the visible tiles by `seen` and adds `seen` to the revealed
    /// tiles. An index that is not on the map is passed over.
    pub fn mark_visible(&mut self, seen: &Vec<usize>)
        requires
            old(self)@.sized(),
        ensures
            final(self)@.shows(old(self)@, seen@),
    {
        let n = self.visible_tiles.len();
        let mut i: usize = 0;
        while i < n
            invariant
                i <= n,
                old(self)@.sized(),
                n == old(self)@.area(),
                n == self.visible_tiles@.len(),
                self@ == (TileMapView { visible_tiles: self@.visible_tiles, ..old(self)@ }),
                forall|idx: int| 0 <= idx < i ==> !#[trigger] self.visible_tiles@[idx],
            decreases n - i,
        {
            self.visible_tiles[i] = false;
            i += 1;
        }
        let mut k: usize = 0;
        while k < seen.len()
            invariant
                k <= seen.len(),
                old(self)@.sized(),
                n == old(self)@.area(),
                n == self.visible_tiles@.len(),
                self@ == (TileMapView {
                    visible_tiles: self@.visible_tiles,
                    revealed_tiles: self@.revealed_tiles,
                    ..old(self)@
                }),
                self@.revealed_tiles.len() == old(self)@.revealed_tiles.len(),
                forall|idx: int|
                    0 <= idx < n ==> #[trigger] self.visible_tiles@[idx] == seen@.take(
                        k as int,
                    ).contains(idx as usize),
                forall|idx: int|
                    0 <= idx < n ==> #[trigger] self.revealed_tiles@[idx] == (old(
                        self,
                    )@.revealed_tiles[idx] || seen@.take(k as int).contains(idx as usize)),
            decreases seen.len() - k,
        {
            let idx = seen[k];
            let ghost done = seen@.take(k as int);
            proof {
                assert(seen@.take(k + 1) == done.push(idx));
                assert forall|j: usize| done.push(idx).contains(j) == (done.contains(j) || j
                    == idx) by {
                    if done.contains(j) {
                        let at = choose|at: int| 0 <= at < done.len() && done[at] == j;
                        assert(done.push(idx)[at] == j);
                    }
                    if j == idx {
                        assert(done.push(idx)[done.len() as int] == j);
                    }
                }
            }
            if idx < n {
                self.visible_tiles[idx] = true;
                self.revealed_tiles[idx] = true;
            }
            k += 1;
        }
        proof {
            assert(seen@.take(k as int) == seen@);
        }
    }
}

/// What the visibility stage makes of actor `before`: a stale viewshed has
/// become the actor's field of view, a fresh one is left as it was, and
/// nothing but the viewshed has changed.
pub open spec fn refreshed(map: TileMapView, before: ActorView, after: ActorView) -> bool {
    &&& after.position == before.position
    &&& after.role == before.role
    &&& after.blocks_tile == before.blocks_tile
    &&& after.viewshed.range == before.viewshed.range
    &&& !after.viewshed.dirty
    &&& if before.viewshed.dirty {
        map.is_field_of_view(
            before.position.x as int,
            before.position.y as int,
            before.viewshed.range,
            after.viewshed.visible_tiles,
        )
    } else {
        after.viewshed.visible_tiles == before.viewshed.visible_tiles
    }
}

/// The stage of a turn that keeps viewsheds up to date.
pub struct VisibilitySystem {}

impl VisibilitySystem {
    /// Computes every stale viewshed anew and clears its stale mark; a fresh
    /// viewshed is not touched. What the player then sees becomes the map's
    /// visible tiles and joins its revealed tiles.
    pub fn run(&mut self, map: &mut TileMap, actors: &mut Vec<Actor>)
        requires
            old(map)@.sized(),
            actors_on_map(old(map)@, actor_views(old(actors)@)),
            one_player(actor_views(old(actors)@)),
        ensures
            final(actors)@.len() == old(actors)@.len(),
            forall|i: int|
                0 <= i < old(actors)@.len() ==> refreshed(
                    old(map)@,
                    old(actors)@[i]@,
                    #[trigger] final(actors)@[i]@,
                ),
            final(map)@.shows(
                old(map)@,
                final(actors)@[player_of(actor_views(old(actors)@))]@.viewshed.visible_tiles,
            ),
    {
        let ghost cast = actor_views(old(actors)@);
        let ghost p = player_of(cast);
        let mut i: usize = 0;
        while i < actors.len()
            invariant
                i <= actors@.len(),
                actors@.len() == old(actors)@.len(),
                cast == actor_views(old(actors)@),
                p == player_of(cast),
                one_player(cast),
                old(map)@.sized(),
                map@.sized(),
                map@.same_geometry(old(map)@),
                actors_on_map(old(map)@, cast),
                forall|j: int|
                    0 <= j < i ==> refreshed(old(map)@, old(actors)@[j]@, #[trigger] actors@[j]@),
                forall|j: int| i <= j < actors@.len() ==> #[trigger] actors@[j] == old(actors)@[j],
                if p < i {
                    map@.shows(old(map)@, actors@[p]@.viewshed.visible_tiles)
                } else {
                    map@ == old(map)@
                },
            decreases actors@.len() - i,
        {
            let ghost others = actors@;
            assert(cast[i as int] == old(actors)@[i as int]@);
            if actors[i].viewshed.dirty {
                let seen = field_of_view(
                    map,
                    actors[i].position.x,
                    actors[i].position.y,
                    actors[i].viewshed.range,
                );
                proof {
                    assert(map@.is_field_of_view(
                        actors@[i as int].position.x as int,
                        actors@[i as int].position.y as int,
                        actors@[i as int].viewshed.range as int,
                        seen@,
                    ));
                    lemma_field_of_view_geometry(
                        map@,
                        old(map)@,
                        actors@[i as int].position.x as int,
                        actors@[i as int].position.y as int,
                        actors@[i as int].viewshed.range as int,
                        seen@,
                    );
                }
                actors[i].viewshed.visible_tiles = seen;
                actors[i].viewshed.dirty = false;
            }
            let is_player = match actors[i].role {
                Role::Player => true,
                Role::Monster(_) => false,
            };
            if is_player {
                proof {
                    lemma_player_unique(cast, i as int);
                }
                map.mark_visible(&actors[i].viewshed.visible_tiles);
            }
            proof {
                assert forall|j: int| 0 <= j < i + 1 implies refreshed(
                    old(map)@,
                    old(actors)@[j]@,
                    #[trigger] actors@[j]@,
                ) by {
                    if j < i {
                        assert(actors@[j] == others[j]);
                    }
                }
                if p < i {
                    assert(actors@[p] == others[p]);
                }
            }
            i += 1;
        }
    }
}

/// A field of view depends on the map's size and tiles only.
pub proof fn lemma_field_of_view_geometry(
    map: TileMapView,
    other: TileMapView,
    x: int,
    y: int,
    range: int,
    seen: Seq<usize>,
)
    requires
        map.same_geometry(other),
        map.is_field_of_view(x, y, range, seen),
    ensures
        other.is_field_of_view(x, y, range, seen),
{
    assert forall|bx: int, by: int| map.sees(x, y, range, bx, by) == other.sees(
        x,
        y,
        range,
        bx,
        by,
    ) by {
        if map.clear_between(x, y, bx, by) {
            assert forall|k: int| 0 < k < chebyshev(x, y, bx, by) implies !#[trigger] other.ray_blocked(
                x,
                y,
                bx,
                by,
                k,
            ) by {
                assert(!map.ray_blocked(x, y, bx, by, k));
            }
        }
        if other.clear_between(x, y, bx, by) {
            assert forall|k: int| 0 < k < chebyshev(x, y, bx, by) implies !#[trigger] map.ray_blocked(
                x,
                y,
                bx,
                by,
                k,
            ) by {
                assert(!other.ray_blocked(x, y, bx, by, k));
            }
        }
    }
    assert forall|idx: int| map.sees_index(x, y, range, idx) == other.sees_index(
        x,
        y,
        range,
        idx,
    ) by {}
    assert forall|k: int| 0 <= k < seen.len() implies other.sees_index(
        x,
        y,
        range,
        #[trigger] seen[k] as int,
    ) by {
        assert(map.sees_index(x, y, range, seen[k] as int));
    }
    assert forall|idx: int| #[trigger] other.sees_index(x, y, range, idx) implies seen.contains(
        idx as usize,
    ) by {
        assert(map.sees_index(x, y, range, idx));
    }
}

} // verus!
