//! The tile map: its grid, its rooms and the per-tile flags that the turn
//! pipeline keeps up to date.

use vstd::prelude::*;
use crate::grid::{check_size, index_at, size_ok, tile_index};
use crate::rect::Rect;

verus! {

/// What a tile is made of.
#[derive(Clone, Copy, Debug, PartialEq, Eq, Structural)]
pub enum TileType {
    Wall,
    Floor,
}

/// The map of one dungeon level.
///
/// `tiles`, `revealed_tiles`, `visible_tiles`, `blocked` and `tile_content`
/// are row-major and hold one entry per tile. `tile_content` lists, per tile,
/// the actors that stand on it, each by its place in the actor list.
pub struct TileMap {
    pub tiles: Vec<TileType>,
    pub rooms: Vec<Rect>,
    pub width: i32,
    pub height: i32,
    pub revealed_tiles: Vec<bool>,
    pub visible_tiles: Vec<bool>,
    pub blocked: Vec<bool>,
    pub tile_content: Vec<Vec<usize>>,
}

/// The mathematical model of a `TileMap`.
pub struct TileMapView {
    pub tiles: Seq<TileType>,
    pub rooms: Seq<Rect>,
    pub width: int,
    pub height: int,
    pub revealed_tiles: Seq<bool>,
    pub visible_tiles: Seq<bool>,
    pub blocked: Seq<bool>,
    pub tile_content: Seq<Seq<usize>>,
}

impl View for TileMap {
    type V = TileMapView;

    open spec fn view(&self) -> TileMapView {
        TileMapView {
            tiles: self.tiles@,
            rooms: self.rooms@,
            width: self.width as int,
            height: self.height as int,
            revealed_tiles: self.revealed_tiles@,
            visible_tiles: self.visible_tiles@,
            blocked: self.blocked@,
            tile_content: Seq::new(self.tile_content@.len(), |i: int| self.tile_content@[i]@),
        }
    }
}

/// `v` lies between `a` and `b`, whichever of the two is smaller.
pub open spec fn between(a: int, b: int, v: int) -> bool {
    (a <= v <= b) || (b <= v <= a)
}

/// Whether `(x, y)` lies on the L-shaped corridor from the center of `prev`
/// to the center of `next`. A corridor that runs `horizontal_first` leaves
/// `prev` along its row and reaches `next` along its column; the other kind
/// leaves along the column and arrives along the row.
pub open spec fn on_corridor(prev: Rect, next: Rect, horizontal_first: bool, x: int, y: int) -> bool {
    if horizontal_first {
        (y == prev.center_y() && between(prev.center_x(), next.center_x(), x)) || (x
            == next.center_x() && between(prev.center_y(), next.center_y(), y))
    } else {
        (x == prev.center_x() && between(prev.center_y(), next.center_y(), y)) || (y
            == next.center_y() && between(prev.center_x(), next.center_x(), x))
    }
}

/// Whether placing room `k` opened tile `(x, y)`: the tile is inside the
/// room, or on the corridor that joins the room to the one placed before it.
pub open spec fn carves(rooms: Seq<Rect>, bends: Seq<bool>, k: int, x: int, y: int) -> bool {
    rooms[k].contains(x, y) || (k >= 1 && on_corridor(rooms[k - 1], rooms[k], bends[k], x, y))
}

/// Whether one of the first `n` rooms opened tile `(x, y)`.
pub open spec fn carved(rooms: Seq<Rect>, bends: Seq<bool>, n: int, x: int, y: int) -> bool {
    exists|k: int| 0 <= k < n && #[trigger] carves(rooms, bends, k, x, y)
}

/// A room fits on a map of the given size when its interior lies on the map
/// and it spans two tiles each way, so that its center is an interior tile.
pub open spec fn room_fits(width: int, height: int, r: Rect) -> bool {
    &&& 0 <= r.x1
    &&& r.x1 + 2 <= r.x2
    &&& r.x2 < width
    &&& 0 <= r.y1
    &&& r.y1 + 2 <= r.y2
    &&& r.y2 < height
}

/// Whether every one of `rooms` fits on a map of the given size.
pub open spec fn rooms_fit(width: int, height: int, rooms: Seq<Rect>) -> bool {
    forall|i: int| 0 <= i < rooms.len() ==> room_fits(width, height, #[trigger] rooms[i])
}

/// No two of the rooms overlap, bounds included.
pub open spec fn rooms_apart(rooms: Seq<Rect>) -> bool {
    forall|i: int, j: int|
        0 <= i < j < rooms.len() ==> !(#[trigger] rooms[i]).overlaps(#[trigger] rooms[j])
}

impl TileMapView {
    /// The number of tiles.
    pub open spec fn area(self) -> int {
        self.width * self.height
    }

    /// Whether `(x, y)` is a tile of the map.
    pub open spec fn in_bounds(self, x: int, y: int) -> bool {
        0 <= x < self.width && 0 <= y < self.height
    }

    /// The index of tile `(x, y)`.
    pub open spec fn index_of(self, x: int, y: int) -> int {
        tile_index(self.width, x, y)
    }

    /// What tile `(x, y)` is made of.
    pub open spec fn tile_at(self, x: int, y: int) -> TileType {
        self.tiles[self.index_of(x, y)]
    }

    /// The grid is not empty, its indices fit in an `i32`, and every per-tile
    /// sequence has one entry per tile.
    pub open spec fn sized(self) -> bool {
        &&& size_ok(self.width, self.height)
        &&& self.tiles.len() == self.area()
        &&& self.revealed_tiles.len() == self.area()
        &&& self.visible_tiles.len() == self.area()
        &&& self.blocked.len() == self.area()
        &&& self.tile_content.len() == self.area()
    }

    /// There is at least one room, every room fits, and no two overlap.
    pub open spec fn rooms_ok(self) -> bool {
        &&& self.rooms.len() >= 1
        &&& rooms_fit(self.width, self.height, self.rooms)
        &&& rooms_apart(self.rooms)
    }

    /// The tiles are exactly what the rooms and their corridors opened, the
    /// corridor of room `k` bending as `bends[k]` says: a tile is floor when
    /// it is inside a room or on a corridor, and wall otherwise.
    pub open spec fn laid_out_by(self, bends: Seq<bool>) -> bool {
        &&& bends.len() == self.rooms.len()
        &&& forall|x: int, y: int|
            self.in_bounds(x, y) ==> #[trigger] self.tile_at(x, y) == (if carved(
                self.rooms,
                bends,
                self.rooms.len() as int,
                x,
                y,
            ) {
                TileType::Floor
            } else {
                TileType::Wall
            })
    }

    /// Well-formedness of a finished map.
    pub open spec fn wf(self) -> bool {
        &&& self.sized()
        &&& self.rooms_ok()
        &&& exists|bends: Seq<bool>| #[trigger] self.laid_out_by(bends)
    }

    /// No tile has been seen, is seen, is blocked or is occupied.
    pub open spec fn flags_clear(self) -> bool {
        &&& forall|i: int| 0 <= i < self.revealed_tiles.len() ==> !#[trigger] self.revealed_tiles[i]
        &&& forall|i: int| 0 <= i < self.visible_tiles.len() ==> !#[trigger] self.visible_tiles[i]
        &&& forall|i: int| 0 <= i < self.blocked.len() ==> !#[trigger] self.blocked[i]
        &&& forall|i: int|
            0 <= i < self.tile_content.len() ==> (#[trigger] self.tile_content[i]).len() == 0
    }

    /// The geometry of the two maps is the same: size, tiles and rooms.
    pub open spec fn same_geometry(self, other: TileMapView) -> bool {
        &&& self.width == other.width
        &&& self.height == other.height
        &&& self.tiles == other.tiles
        &&& self.rooms == other.rooms
    }
}

impl TileMap {
    /// Whether the grid can be held and every per-tile list has one entry
    /// per tile.
    pub fn is_sized(&self) -> (ok: bool)
        ensures
            ok == self@.sized(),
    {
        if !check_size(self.width, self.height) {
            return false;
        }
        let area: usize = (self.width as usize) * (self.height as usize);
        self.tiles.len() == area && self.revealed_tiles.len() == area && self.visible_tiles.len()
            == area && self.blocked.len() == area && self.tile_content.len() == area
    }

    /// Whether `(x, y)` is a tile of the map.
    pub fn in_bounds(&self, x: i32, y: i32) -> (inside: bool)
        ensures
            inside == self@.in_bounds(x as int, y as int),
    {
        0 <= x && x < self.width && 0 <= y && y < self.height
    }

    /// The index of tile `(x, y)`: `y * width + x`.
    pub fn xy_idx(&self, x: i32, y: i32) -> (idx: usize)
        requires
            self@.sized(),
            self@.in_bounds(x as int, y as int),
        ensures
            idx == self@.index_of(x as int, y as int),
            idx < self@.area(),
    {
        index_at(self.width, self.height, x, y)
    }
}

/// Well-formedness rests on the geometry and the sizes only: flags may
/// change freely.
pub proof fn lemma_wf_same_geometry(a: TileMapView, b: TileMapView)
    requires
        a.wf(),
        b.same_geometry(a),
        b.sized(),
    ensures
        b.wf(),
{
    let bends = choose|bends: Seq<bool>| #[trigger] a.laid_out_by(bends);
    assert forall|x: int, y: int| b.in_bounds(x, y) implies #[trigger] b.tile_at(x, y) == (if carved(
        b.rooms,
        bends,
        b.rooms.len() as int,
        x,
        y,
    ) {
        TileType::Floor
    } else {
        TileType::Wall
    }) by {
        assert(a.tile_at(x, y) == b.tile_at(x, y));
    }
    assert(b.laid_out_by(bends));
}

/// The centers of two rooms of a well-formed map are different tiles, and
/// each is an open tile of the map.
pub proof fn lemma_centers(map: TileMapView, i: int, j: int)
    requires
        map.wf(),
        0 <= i < map.rooms.len(),
        0 <= j < map.rooms.len(),
    ensures
        map.in_bounds(map.rooms[i].center_x(), map.rooms[i].center_y()),
        map.tile_at(map.rooms[i].center_x(), map.rooms[i].center_y()) == TileType::Floor,
        i != j ==> (map.rooms[i].center_x() != map.rooms[j].center_x() || map.rooms[i].center_y()
            != map.rooms[j].center_y()),
{
    let a = map.rooms[i];
    let b = map.rooms[j];
    assert(room_fits(map.width, map.height, a) && room_fits(map.width, map.height, b));
    crate::rect::lemma_center_inside(a);
    crate::rect::lemma_center_inside(b);
    let bends = choose|bends: Seq<bool>| #[trigger] map.laid_out_by(bends);
    assert(carves(map.rooms, bends, i, a.center_x(), a.center_y()));
    assert(map.tile_at(a.center_x(), a.center_y()) == TileType::Floor);
    if i < j {
        assert(!a.overlaps(b));
    } else if j < i {
        assert(!b.overlaps(a));
    }
}

/// In a well-formed map every tile inside a room is a floor tile of the map.
pub proof fn lemma_rooms_open(map: TileMapView, i: int, x: int, y: int)
    requires
        map.wf(),
        0 <= i < map.rooms.len(),
        map.rooms[i].contains(x, y),
    ensures
        map.in_bounds(x, y),
        map.tile_at(x, y) == TileType::Floor,
{
    assert(room_fits(map.width, map.height, map.rooms[i]));
    let bends = choose|bends: Seq<bool>| #[trigger] map.laid_out_by(bends);
    assert(carves(map.rooms, bends, i, x, y));
}

} // verus!
