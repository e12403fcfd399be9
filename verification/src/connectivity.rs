//! Walking the map: which tiles can be reached from which over floor, and
//! the proof that the corridors join all rooms.

use vstd::prelude::*;
use crate::map::{TileMapView, TileType, between, carves, on_corridor, lemma_centers};
use crate::sight::abs;

verus! {

/// Whether the two tiles share an edge.
pub open spec fn neighbours(a: (int, int), b: (int, int)) -> bool {
    abs(a.0 - b.0) + abs(a.1 - b.1) == 1
}

/// The coordinate `i` tiles from `from` in the direction of `to`.
pub open spec fn toward_by(from: int, to: int, i: int) -> int {
    if to >= from {
        from + i
    } else {
        from - i
    }
}

impl TileMapView {
    /// Whether `at` is a floor tile of the map.
    pub open spec fn open_at(self, at: (int, int)) -> bool {
        self.in_bounds(at.0, at.1) && self.tile_at(at.0, at.1) == TileType::Floor
    }

    /// Whether `path` is a walk over floor: every tile of it is a floor tile
    /// of the map, and each shares an edge with the next.
    pub open spec fn is_floor_path(self, path: Seq<(int, int)>) -> bool {
        &&& path.len() >= 1
        &&& forall|i: int| 0 <= i < path.len() ==> self.open_at(#[trigger] path[i])
        &&& forall|i: int| 0 <= i < path.len() - 1 ==> neighbours(#[trigger] path[i], path[i + 1])
    }

    /// Whether `path` is a walk over floor from `a` to `b`.
    pub open spec fn walks(self, path: Seq<(int, int)>, a: (int, int), b: (int, int)) -> bool {
        self.is_floor_path(path) && path[0] == a && path[path.len() - 1] == b
    }

    /// Whether `b` can be reached from `a` over floor.
    pub open spec fn connected(self, a: (int, int), b: (int, int)) -> bool {
        exists|path: Seq<(int, int)>| #[trigger] self.walks(path, a, b)
    }

    /// The center of room `i`.
    pub open spec fn center_of(self, i: int) -> (int, int) {
        (self.rooms[i].center_x(), self.rooms[i].center_y())
    }
}

/// A floor tile can be reached from itself.
pub proof fn lemma_connected_here(map: TileMapView, a: (int, int))
    requires
        map.open_at(a),
    ensures
        map.connected(a, a),
{
    let path = seq![a];
    assert(map.walks(path, a, a));
}

/// What can be reached from a tile that can be reached, can be reached.
pub proof fn lemma_connected_onward(map: TileMapView, a: (int, int), b: (int, int), c: (int, int))
    requires
        map.connected(a, b),
        map.connected(b, c),
    ensures
        map.connected(a, c),
{
    let first = choose|path: Seq<(int, int)>| #[trigger] map.walks(path, a, b);
    let second = choose|path: Seq<(int, int)>| #[trigger] map.walks(path, b, c);
    let head = first.drop_last();
    let path = head + second;
    assert forall|i: int| 0 <= i < path.len() implies map.open_at(#[trigger] path[i]) by {
        if i < head.len() {
            assert(path[i] == first[i]);
        } else {
            assert(path[i] == second[i - head.len()]);
        }
    }
    assert forall|i: int| 0 <= i < path.len() - 1 implies neighbours(
        #[trigger] path[i],
        path[i + 1],
    ) by {
        if i + 1 < head.len() {
            assert(path[i] == first[i] && path[i + 1] == first[i + 1]);
        } else if i < head.len() {
            assert(path[i] == first[i] && path[i + 1] == second[0]);
            assert(second[0] == first[i + 1]);
        } else {
            assert(path[i] == second[i - head.len()]);
            assert(path[i + 1] == second[i - head.len() + 1]);
        }
    }
    assert(path[0] == a) by {
        if head.len() > 0 {
            assert(path[0] == first[0]);
        } else {
            assert(path[0] == second[0]);
        }
    }
    assert(path[path.len() - 1] == second[second.len() - 1]);
    assert(map.walks(path, a, c));
}

/// A walk can be walked back.
pub proof fn lemma_connected_back(map: TileMapView, a: (int, int), b: (int, int))
    requires
        map.connected(a, b),
    ensures
        map.connected(b, a),
{
    let there = choose|path: Seq<(int, int)>| #[trigger] map.walks(path, a, b);
    let n = there.len() as int;
    let back = Seq::new(there.len(), |i: int| there[n - 1 - i]);
    assert forall|i: int| 0 <= i < back.len() - 1 implies neighbours(
        #[trigger] back[i],
        back[i + 1],
    ) by {
        assert(neighbours(there[n - 2 - i], there[n - 2 - i + 1]));
    }
    assert(map.walks(back, b, a));
}

/// A stretch of floor along a row is a walk from one end to the other.
pub proof fn lemma_row_connected(map: TileMapView, y: int, x1: int, x2: int)
    requires
        forall|x: int| between(x1, x2, x) ==> #[trigger] map.open_at((x, y)),
    ensures
        map.connected((x1, y), (x2, y)),
{
    let n = abs(x2 - x1);
    let path = Seq::new((n + 1) as nat, |i: int| (toward_by(x1, x2, i), y));
    assert forall|i: int| 0 <= i < path.len() implies map.open_at(#[trigger] path[i]) by {
        assert(between(x1, x2, toward_by(x1, x2, i)));
        assert(map.open_at((toward_by(x1, x2, i), y)));
    }
    assert(map.walks(path, (x1, y), (x2, y)));
}

/// A stretch of floor along a column is a walk from one end to the other.
pub proof fn lemma_column_connected(map: TileMapView, x: int, y1: int, y2: int)
    requires
        forall|y: int| between(y1, y2, y) ==> #[trigger] map.open_at((x, y)),
    ensures
        map.connected((x, y1), (x, y2)),
{
    let n = abs(y2 - y1);
    let path = Seq::new((n + 1) as nat, |i: int| (x, toward_by(y1, y2, i)));
    assert forall|i: int| 0 <= i < path.len() implies map.open_at(#[trigger] path[i]) by {
        assert(between(y1, y2, toward_by(y1, y2, i)));
        assert(map.open_at((x, toward_by(y1, y2, i))));
    }
    assert(map.walks(path, (x, y1), (x, y2)));
}

/// The corridor of room `k` is a walk from the center of the room before it
/// to its own center.
pub proof fn lemma_corridor_connects(map: TileMapView, k: int)
    requires
        map.wf(),
        1 <= k < map.rooms.len(),
    ensures
        map.connected(map.center_of(k - 1), map.center_of(k)),
{
    let bends = choose|bends: Seq<bool>| #[trigger] map.laid_out_by(bends);
    let prev = map.rooms[k - 1];
    let next = map.rooms[k];
    let (px, py) = map.center_of(k - 1);
    let (nx, ny) = map.center_of(k);
    lemma_centers(map, k - 1, k);
    lemma_centers(map, k, k - 1);
    assert forall|x: int, y: int| on_corridor(prev, next, bends[k], x, y) implies map.open_at(
        (x, y),
    ) by {
        assert(carves(map.rooms, bends, k, x, y));
        assert(map.in_bounds(x, y));
        assert(map.tile_at(x, y) == TileType::Floor);
    }
    if bends[k] {
        assert forall|x: int| between(px, nx, x) implies #[trigger] map.open_at((x, py)) by {
            assert(on_corridor(prev, next, bends[k], x, py));
        }
        assert forall|y: int| between(py, ny, y) implies #[trigger] map.open_at((nx, y)) by {
            assert(on_corridor(prev, next, bends[k], nx, y));
        }
        lemma_row_connected(map, py, px, nx);
        lemma_column_connected(map, nx, py, ny);
        lemma_connected_onward(map, (px, py), (nx, py), (nx, ny));
    } else {
        assert forall|y: int| between(py, ny, y) implies #[trigger] map.open_at((px, y)) by {
            assert(on_corridor(prev, next, bends[k], px, y));
        }
        assert forall|x: int| between(px, nx, x) implies #[trigger] map.open_at((x, ny)) by {
            assert(on_corridor(prev, next, bends[k], x, ny));
        }
        lemma_column_connected(map, px, py, ny);
        lemma_row_connected(map, ny, px, nx);
        lemma_connected_onward(map, (px, py), (px, ny), (nx, ny));
    }
}

/// The center of every room can be reached from the center of the first.
pub proof fn lemma_reached_from_first(map: TileMapView, i: int)
    requires
        map.wf(),
        0 <= i < map.rooms.len(),
    ensures
        map.connected(map.center_of(0), map.center_of(i)),
    decreases i,
{
    if i == 0 {
        lemma_centers(map, 0, 0);
        lemma_connected_here(map, map.center_of(0));
    } else {
        lemma_reached_from_first(map, i - 1);
        lemma_corridor_connects(map, i);
        lemma_connected_onward(map, map.center_of(0), map.center_of(i - 1), map.center_of(i));
    }
}

/// In a well-formed map, the center of any room can be reached over floor
/// from the center of any other.
pub proof fn lemma_rooms_connected(map: TileMapView, i: int, j: int)
    requires
        map.wf(),
        0 <= i < map.rooms.len(),
        0 <= j < map.rooms.len(),
    ensures
        map.connected(map.center_of(i), map.center_of(j)),
{
    lemma_reached_from_first(map, i);
    lemma_reached_from_first(map, j);
    lemma_connected_back(map, map.center_of(0), map.center_of(i));
    lemma_connected_onward(map, map.center_of(i), map.center_of(0), map.center_of(j));
}

} // verus!
